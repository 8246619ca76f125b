use crate::strings::str_eq;
use vstd::prelude::*;

verus! {

/// The parameter names treated as tracking parameters by default.
pub open spec fn default_params_spec() -> Seq<Seq<char>> {
    seq![
        "fbclid"@,
        "gclid"@,
        "gclsrc"@,
        "dclid"@,
        "zanpid"@,
        "utm_source"@,
        "utm_campaign"@,
        "utm_medium"@,
        "utm_term"@,
        "utm_content"@,
    ]
}

/// The default list of tracked parameter names.
pub fn get_default_params() -> (r: Vec<String>)
    ensures
        r.deep_view() == default_params_spec(),
{
    let mut v: Vec<String> = Vec::new();
    v.push("fbclid".to_owned());
    v.push("gclid".to_owned());
    v.push("gclsrc".to_owned());
    v.push("dclid".to_owned());
    v.push("zanpid".to_owned());
    v.push("utm_source".to_owned());
    v.push("utm_campaign".to_owned());
    v.push("utm_medium".to_owned());
    v.push("utm_term".to_owned());
    v.push("utm_content".to_owned());
    proof {
        assert(v.deep_view() =~= default_params_spec());
    }
    v
}

/// An index of parameter names supporting exact membership tests.
pub struct ParamIndex {
    pub keys: Vec<String>,
}

impl ParamIndex {
    /// Whether the index holds the given name.
    pub open spec fn contains_spec(&self, name: Seq<char>) -> bool {
        self.keys.deep_view().contains(name)
    }
}

/// Builds a membership index over the given parameter names.
pub fn create_index(v: &[String]) -> (r: ParamIndex)
    ensures
        r.keys.deep_view() == v.deep_view(),
{
    let mut keys: Vec<String> = Vec::new();
    let mut i: usize = 0;
    while i < v.len()
        invariant
            i <= v.len(),
            keys.deep_view() == v.deep_view().take(i as int),
        decreases v.len() - i,
    {
        let ghost keys0 = keys.deep_view();
        keys.push(v[i].clone());
        proof {
            assert(keys0 == v.deep_view().take(i as int));
            assert(keys0.len() == i as int);
            assert(keys@.len() == i + 1);
            assert(keys.deep_view()[i as int] == v.deep_view()[i as int]);
            assert(forall|k: int| 0 <= k < i ==> keys.deep_view()[k] == keys0[k]);
            assert(keys.deep_view() =~~= v.deep_view().take(i + 1 as int));
        }
        i += 1;
    }
    proof {
        assert(v.deep_view().take(v.deep_view().len() as int) =~= v.deep_view());
    }
    ParamIndex { keys }
}

/// Whether the given name is one of the indexed parameter names.
pub fn is_hit(name: &str, params: &ParamIndex) -> (r: bool)
    ensures
        r == params.contains_spec(name@),
{
    let mut i: usize = 0;
    while i < params.keys.len()
        invariant
            i <= params.keys.len(),
            forall|j: int| 0 <= j < i ==> params.keys.deep_view()[j] != name@,
        decreases params.keys.len() - i,
    {
        if str_eq(name, params.keys[i].as_str()) {
            proof {
                assert(params.keys.deep_view()[i as int] == name@);
            }
            return true;
        }
        i += 1;
    }
    false
}

} // verus!
