use crate::mode::Mode;
use crate::strings::chars_of;
use crate::strings::str_eq;
use crate::strings::string_of;
use chrono::Datelike;
use vstd::pervasive::VecAdditionalExecFns;
use vstd::prelude::*;
use vstd::string::StringExecFns;

verus! {

/// The scoped form of a tracked-parameter name: the domain, two backticks,
/// then the bare name.
pub open spec fn scoped_key(dom: Seq<char>, key: Seq<char>) -> Seq<char> {
    dom + "``"@ + key
}

/// A query key is tracked when the bare key is a tracked name, or when the
/// key scoped to the URL's domain is.
pub open spec fn is_tracked(
    params: Seq<Seq<char>>,
    dom: Option<Seq<char>>,
    key: Seq<char>,
) -> bool {
    params.contains(key) || (dom is Some && params.contains(scoped_key(dom.unwrap(), key)))
}

/// The pairs kept by Remove mode: every untracked pair, in order.
pub open spec fn remove_spec(
    q: Seq<(Seq<char>, Seq<char>)>,
    params: Seq<Seq<char>>,
    dom: Option<Seq<char>>,
) -> Seq<(Seq<char>, Seq<char>)>
    decreases q.len(),
{
    if q.len() == 0 {
        Seq::empty()
    } else {
        let rest = remove_spec(q.drop_last(), params, dom);
        if is_tracked(params, dom, q.last().0) {
            rest
        } else {
            rest.push(q.last())
        }
    }
}

/// The pairs produced by Replace mode: tracked pairs keep their key but take
/// the replacement text as value; the rest pass through unchanged.
pub open spec fn replace_spec(
    q: Seq<(Seq<char>, Seq<char>)>,
    params: Seq<Seq<char>>,
    dom: Option<Seq<char>>,
    to: Seq<char>,
) -> Seq<(Seq<char>, Seq<char>)>
    decreases q.len(),
{
    if q.len() == 0 {
        Seq::empty()
    } else {
        let rest = replace_spec(q.drop_last(), params, dom, to);
        if is_tracked(params, dom, q.last().0) {
            rest.push((q.last().0, to))
        } else {
            rest.push(q.last())
        }
    }
}

/// The synthetic pair YourMom mode appends.
pub open spec fn mom_pair() -> (Seq<char>, Seq<char>) {
    ("utm_source"@, "your_mom"@)
}

/// The pairs produced by YourMom mode: Remove's result, with the synthetic
/// pair appended except on the ninth of May.
pub open spec fn your_mom_spec(
    q: Seq<(Seq<char>, Seq<char>)>,
    params: Seq<Seq<char>>,
    dom: Option<Seq<char>>,
    may_ninth: bool,
) -> Seq<(Seq<char>, Seq<char>)> {
    if may_ninth {
        remove_spec(q, params, dom)
    } else {
        remove_spec(q, params, dom).push(mom_pair())
    }
}

/// The string with the characters at positions `a` and `b` exchanged.
pub open spec fn swap_spec(s: Seq<char>, a: int, b: int) -> Seq<char>
    recommends
        0 <= a < s.len(),
        0 <= b < s.len(),
{
    s.update(a, s[b]).update(b, s[a])
}

/// What holds of Evil mode's output for any random draw: keys and pair count
/// are unchanged, untracked values pass through, and every tracked non-empty
/// value is the input value with two of its characters swapped. Evil matches
/// bare keys only; domain-scoped names do not apply.
pub open spec fn evil_rel(
    q: Seq<(Seq<char>, Seq<char>)>,
    params: Seq<Seq<char>>,
    r: Seq<(Seq<char>, Seq<char>)>,
) -> bool {
    &&& r.len() == q.len()
    &&& forall|k: int| #![trigger r[k]] 0 <= k < q.len() ==> r[k].0 == q[k].0
    &&& forall|k: int|
        #![trigger r[k]]
        0 <= k < q.len() && !params.contains(q[k].0) ==> r[k].1 == q[k].1
    &&& forall|k: int|
        #![trigger r[k]]
        0 <= k < q.len() && params.contains(q[k].0) ==> ((q[k].1.len() == 0 && r[k].1 == q[k].1)
            || (exists|a: int, b: int|
            0 <= a < q[k].1.len() && 0 <= b < q[k].1.len() && r[k].1 == swap_spec(q[k].1, a, b)))
}

/// How a list of query pairs may be transformed under each mode: Remove and
/// Replace are functions of the input, YourMom also depends on the calendar
/// date, and Evil on the random draws.
pub open spec fn pairs_rel(
    mode: Mode,
    params: Seq<Seq<char>>,
    dom: Option<Seq<char>>,
    to: Seq<char>,
    q: Seq<(Seq<char>, Seq<char>)>,
    r: Seq<(Seq<char>, Seq<char>)>,
) -> bool {
    match mode {
        Mode::Remove => r == remove_spec(q, params, dom),
        Mode::Replace => r == replace_spec(q, params, dom, to),
        Mode::YourMom => r == your_mom_spec(q, params, dom, true) || r == your_mom_spec(
            q,
            params,
            dom,
            false,
        ),
        Mode::Evil => evil_rel(q, params, r),
    }
}

/// Whether the list holds the given string.
pub fn vec_contains_str(params: &Vec<String>, key: &str) -> (r: bool)
    ensures
        r == params.deep_view().contains(key@),
{
    let mut i: usize = 0;
    while i < params.len()
        invariant
            i <= params.len(),
            forall|j: int| 0 <= j < i ==> params.deep_view()[j] != key@,
        decreases params.len() - i,
    {
        if str_eq(key, params[i].as_str()) {
            proof {
                assert(params.deep_view()[i as int] == key@);
            }
            return true;
        }
        i += 1;
    }
    false
}

/// Builds the scoped form of a parameter name for the given domain.
fn make_scoped(dom: &str, key: &str) -> (r: String)
    ensures
        r@ == scoped_key(dom@, key@),
{
    let mut s = dom.to_owned();
    s.append("``");
    s.append(key);
    s
}

/// Whether `key` is tracked, either bare or scoped to the domain.
pub fn key_hit(params: &Vec<String>, dom: &Option<String>, key: &str) -> (r: bool)
    ensures
        r == is_tracked(params.deep_view(), dom.deep_view(), key@),
{
    if vec_contains_str(params, key) {
        return true;
    }
    match dom {
        Some(d) => {
            let sk = make_scoped(d.as_str(), key);
            vec_contains_str(params, sk.as_str())
        },
        None => false,
    }
}

/// Remove mode: drops every tracked pair, keeping the rest in order.
pub fn filter_pairs(
    q: &Vec<(String, String)>,
    params: &Vec<String>,
    dom: &Option<String>,
) -> (r: Vec<(String, String)>)
    ensures
        r.deep_view() == remove_spec(q.deep_view(), params.deep_view(), dom.deep_view()),
{
    let mut out: Vec<(String, String)> = Vec::new();
    let mut i: usize = 0;
    proof {
        assert(q.deep_view().take(0) =~= Seq::<(Seq<char>, Seq<char>)>::empty());
    }
    while i < q.len()
        invariant
            i <= q.len(),
            out.deep_view() == remove_spec(
                q.deep_view().take(i as int),
                params.deep_view(),
                dom.deep_view(),
            ),
        decreases q.len() - i,
    {
        let hit = key_hit(params, dom, q[i].0.as_str());
        let ghost out0 = out.deep_view();
        if !hit {
            let kept = (q[i].0.clone(), q[i].1.clone());
            out.push(kept);
        }
        proof {
            let qv = q.deep_view();
            assert(qv.take(i + 1 as int).drop_last() =~= qv.take(i as int));
            assert(qv.take(i + 1 as int).last() == qv[i as int]);
            if !hit {
                assert(out.deep_view().len() == out0.len() + 1);
                assert forall|k: int| 0 <= k < out0.len() + 1 implies out.deep_view()[k]
                    == out0.push(qv[i as int])[k] by {
                    if k < out0.len() {
                        assert(out.deep_view()[k] == out0[k]);
                    } else {
                        assert(out.deep_view()[k] == qv[i as int]);
                    }
                }
                assert(out.deep_view() =~= out0.push(qv[i as int]));
            }
        }
        i += 1;
    }
    proof {
        assert(q.deep_view().take(q.deep_view().len() as int) =~= q.deep_view());
    }
    out
}

/// Replace mode: tracked pairs keep their key and take the replacement text.
pub fn replace_pairs(
    q: &Vec<(String, String)>,
    params: &Vec<String>,
    dom: &Option<String>,
    to: &str,
) -> (r: Vec<(String, String)>)
    ensures
        r.deep_view() == replace_spec(q.deep_view(), params.deep_view(), dom.deep_view(), to@),
{
    let mut out: Vec<(String, String)> = Vec::new();
    let mut i: usize = 0;
    proof {
        assert(q.deep_view().take(0) =~= Seq::<(Seq<char>, Seq<char>)>::empty());
    }
    while i < q.len()
        invariant
            i <= q.len(),
            out.deep_view() == replace_spec(
                q.deep_view().take(i as int),
                params.deep_view(),
                dom.deep_view(),
                to@,
            ),
        decreases q.len() - i,
    {
        let hit = key_hit(params, dom, q[i].0.as_str());
        let ghost out0 = out.deep_view();
        let next = if hit {
            (q[i].0.clone(), to.to_owned())
        } else {
            (q[i].0.clone(), q[i].1.clone())
        };
        let ghost nextv = next.deep_view();
        out.push(next);
        proof {
            let qv = q.deep_view();
            assert(qv.take(i + 1 as int).drop_last() =~= qv.take(i as int));
            assert(qv.take(i + 1 as int).last() == qv[i as int]);
            assert(out.deep_view().len() == out0.len() + 1);
            assert forall|k: int| 0 <= k < out0.len() + 1 implies out.deep_view()[k] == out0.push(
                nextv,
            )[k] by {
                if k < out0.len() {
                    assert(out.deep_view()[k] == out0[k]);
                } else {
                    assert(out.deep_view()[k] == nextv);
                }
            }
            assert(out.deep_view() =~= out0.push(nextv));
        }
        i += 1;
    }
    proof {
        assert(q.deep_view().take(q.deep_view().len() as int) =~= q.deep_view());
    }
    out
}

/// Relies on chrono's `Utc::now` and the `Datelike` accessors `month` and
/// `day`: the current UTC month (1 to 12) and day of month (1 to 31).
#[verifier::external_body]
fn current_month_day() -> (r: (u32, u32))
    ensures
        1 <= r.0 <= 12,
        1 <= r.1 <= 31,
{
    let now = chrono::Utc::now();
    (now.month(), now.day())
}

/// Relies on rand's `thread_rng` and `Rng::gen_range`: a uniformly random
/// index below `n`; `gen_range` panics only on an empty range, which the
/// precondition rules out.
#[verifier::external_body]
fn rand_below(n: usize) -> (r: usize)
    requires
        n > 0,
    ensures
        r < n,
{
    rand::Rng::gen_range(&mut rand::thread_rng(), 0..n)
}

/// YourMom mode for a given calendar date: Remove's result, with the
/// synthetic pair appended except on the ninth of May.
pub fn your_mom_pairs(
    q: &Vec<(String, String)>,
    params: &Vec<String>,
    dom: &Option<String>,
    month: u32,
    day: u32,
) -> (r: Vec<(String, String)>)
    ensures
        r.deep_view() == your_mom_spec(
            q.deep_view(),
            params.deep_view(),
            dom.deep_view(),
            month == 5 && day == 9,
        ),
{
    let mut out = filter_pairs(q, params, dom);
    if month == 5 && day == 9 {
        out
    } else {
        let ghost out0 = out.deep_view();
        let mom = ("utm_source".to_owned(), "your_mom".to_owned());
        let ghost momv = mom.deep_view();
        out.push(mom);
        proof {
            assert(momv == mom_pair());
            assert(out.deep_view().len() == out0.len() + 1);
            assert forall|k: int| 0 <= k < out0.len() + 1 implies out.deep_view()[k] == out0.push(
                momv,
            )[k] by {
                if k < out0.len() {
                    assert(out.deep_view()[k] == out0[k]);
                } else {
                    assert(out.deep_view()[k] == momv);
                }
            }
            assert(out.deep_view() =~= out0.push(momv));
        }
        out
    }
}

/// The string with the characters at positions `a` and `b` exchanged.
pub fn swap_two_chars(s: &str, a: usize, b: usize) -> (r: String)
    requires
        a < s@.len(),
        b < s@.len(),
    ensures
        r@ == swap_spec(s@, a as int, b as int),
{
    let mut cv = chars_of(s);
    let ca = cv[a];
    let cb = cv[b];
    cv.set(a, cb);
    cv.set(b, ca);
    string_of(&cv)
}

/// Evil mode: every pair whose bare key is tracked has two randomly chosen
/// positions of its value swapped; empty values and untracked pairs pass
/// through unchanged.
pub fn evil_pairs(q: &Vec<(String, String)>, params: &Vec<String>) -> (r: Vec<(String, String)>)
    ensures
        evil_rel(q.deep_view(), params.deep_view(), r.deep_view()),
{
    let mut out: Vec<(String, String)> = Vec::new();
    let mut i: usize = 0;
    while i < q.len()
        invariant
            i <= q.len(),
            out.deep_view().len() == i,
            evil_rel(q.deep_view().take(i as int), params.deep_view(), out.deep_view()),
        decreases q.len() - i,
    {
        let hit = vec_contains_str(params, q[i].0.as_str());
        let ghost out0 = out.deep_view();
        let ghost qv = q.deep_view();
        let value_len = {
            let vchars = chars_of(q[i].1.as_str());
            vchars.len()
        };
        let ghost swapped: (int, int) = (0, 0);
        let next = if hit && value_len > 0 {
            let a = rand_below(value_len);
            let b = rand_below(value_len);
            proof {
                swapped = (a as int, b as int);
            }
            (q[i].0.clone(), swap_two_chars(q[i].1.as_str(), a, b))
        } else {
            (q[i].0.clone(), q[i].1.clone())
        };
        let ghost nextv = next.deep_view();
        out.push(next);
        proof {
            assert(out.deep_view().len() == out0.len() + 1);
            assert forall|k: int| 0 <= k < out0.len() + 1 implies out.deep_view()[k] == out0.push(
                nextv,
            )[k] by {
                if k < out0.len() {
                    assert(out.deep_view()[k] == out0[k]);
                } else {
                    assert(out.deep_view()[k] == nextv);
                }
            }
            assert(out.deep_view() =~= out0.push(nextv));
            let q1 = qv.take(i + 1 as int);
            let pv = params.deep_view();
            let rv = out.deep_view();
            assert(q1.drop_last() =~= qv.take(i as int));
            assert(forall|k: int| 0 <= k < i ==> q1[k] == #[trigger] qv.take(i as int)[k]);
            assert(q1[i as int] == qv[i as int]);
            assert(qv[i as int] == (q@[i as int].0@, q@[i as int].1@));
            assert(rv[i as int] == nextv);
            assert(nextv.0 == qv[i as int].0);
            assert(hit == pv.contains(qv[i as int].0));
            assert(value_len == qv[i as int].1.len());
            if hit && value_len > 0 {
                assert(nextv.1 == swap_spec(qv[i as int].1, swapped.0, swapped.1));
                assert(0 <= swapped.0 < qv[i as int].1.len() && 0 <= swapped.1 < qv[
                    i as int].1.len());
            } else {
                assert(nextv.1 == qv[i as int].1);
            }
            assert(rv.len() == q1.len());
            assert forall|k: int| 0 <= k < q1.len() implies rv[k].0 == q1[k].0 by {
                if k < i {
                    assert(rv[k] == out0[k]);
                    assert(q1[k] == qv.take(i as int)[k]);
                }
            }
            assert forall|k: int| 0 <= k < q1.len() && !pv.contains(q1[k].0) implies rv[k].1
                == q1[k].1 by {
                if k < i {
                    assert(rv[k] == out0[k]);
                    assert(q1[k] == qv.take(i as int)[k]);
                }
            }
            assert forall|k: int| 0 <= k < q1.len() && pv.contains(q1[k].0) implies ((q1[k].1.len()
                == 0 && rv[k].1 == q1[k].1) || (exists|a: int, b: int|
                0 <= a < q1[k].1.len() && 0 <= b < q1[k].1.len() && rv[k].1 == swap_spec(
                    q1[k].1,
                    a,
                    b,
                ))) by {
                if k < i {
                    assert(rv[k] == out0[k]);
                    assert(q1[k] == qv.take(i as int)[k]);
                } else {
                    if value_len > 0 {
                        assert(rv[k].1 == swap_spec(q1[k].1, swapped.0, swapped.1));
                        assert(0 <= swapped.0 < q1[k].1.len() && 0 <= swapped.1 < q1[k].1.len());
                    } else {
                        assert(q1[k].1.len() == 0 && rv[k].1 == q1[k].1);
                    }
                }
            }
            assert(evil_rel(q1, pv, rv));
        }
        i += 1;
    }
    proof {
        assert(q.deep_view().take(q.deep_view().len() as int) =~= q.deep_view());
    }
    out
}

/// Transforms a URL's decoded query pairs according to the mode: the chosen
/// handler runs over the pairs, consulting the tracked names, the domain for
/// scoped matching, the replacement text, and — for YourMom and Evil — the
/// clock or the random source.
pub fn process_query(
    q: &Vec<(String, String)>,
    mode: Mode,
    params: &Vec<String>,
    dom: &Option<String>,
    to: &str,
) -> (r: Vec<(String, String)>)
    ensures
        pairs_rel(mode, params.deep_view(), dom.deep_view(), to@, q.deep_view(), r.deep_view()),
{
    match mode {
        Mode::Remove => filter_pairs(q, params, dom),
        Mode::Replace => replace_pairs(q, params, dom, to),
        Mode::YourMom => {
            let md = current_month_day();
            your_mom_pairs(q, params, dom, md.0, md.1)
        },
        Mode::Evil => evil_pairs(q, params),
    }
}


/// Removing tracked parameters from a query that holds none is the identity.
pub proof fn lemma_remove_identity(
    q: Seq<(Seq<char>, Seq<char>)>,
    params: Seq<Seq<char>>,
    dom: Option<Seq<char>>,
)
    requires
        forall|k: int| 0 <= k < q.len() ==> !is_tracked(params, dom, (#[trigger] q[k]).0),
    ensures
        remove_spec(q, params, dom) == q,
    decreases q.len(),
{
    if q.len() == 0 {
        assert(remove_spec(q, params, dom) =~= q);
    } else {
        assert(forall|k: int|
            0 <= k < q.len() - 1 ==> (#[trigger] q.drop_last()[k]).0 == q[k].0);
        lemma_remove_identity(q.drop_last(), params, dom);
        assert(remove_spec(q, params, dom) =~= q);
    }
}

/// Every pair Remove mode keeps is untracked.
pub proof fn lemma_remove_untracked(
    q: Seq<(Seq<char>, Seq<char>)>,
    params: Seq<Seq<char>>,
    dom: Option<Seq<char>>,
)
    ensures
        forall|k: int|
            0 <= k < remove_spec(q, params, dom).len() ==> !is_tracked(
                params,
                dom,
                (#[trigger] remove_spec(q, params, dom)[k]).0,
            ),
    decreases q.len(),
{
    if q.len() > 0 {
        lemma_remove_untracked(q.drop_last(), params, dom);
        let rest = remove_spec(q.drop_last(), params, dom);
        if !is_tracked(params, dom, q.last().0) {
            assert(forall|k: int|
                0 <= k < rest.len() ==> #[trigger] rest.push(q.last())[k] == rest[k]);
            assert(rest.push(q.last())[rest.len() as int] == q.last());
        }
    }
}

/// Remove mode is idempotent on a query's pairs: removing tracked parameters
/// a second time changes nothing.
pub proof fn lemma_remove_idempotent(
    q: Seq<(Seq<char>, Seq<char>)>,
    params: Seq<Seq<char>>,
    dom: Option<Seq<char>>,
)
    ensures
        remove_spec(remove_spec(q, params, dom), params, dom) == remove_spec(q, params, dom),
{
    lemma_remove_untracked(q, params, dom);
    lemma_remove_identity(remove_spec(q, params, dom), params, dom);
}

/// On an input with no tracked parameters, YourMom mode outside the ninth of
/// May appends exactly one synthetic pair and touches nothing else.
pub proof fn lemma_your_mom_appends(
    q: Seq<(Seq<char>, Seq<char>)>,
    params: Seq<Seq<char>>,
    dom: Option<Seq<char>>,
)
    requires
        forall|k: int| 0 <= k < q.len() ==> !is_tracked(params, dom, (#[trigger] q[k]).0),
    ensures
        your_mom_spec(q, params, dom, false) == q.push(mom_pair()),
        your_mom_spec(q, params, dom, true) == q,
{
    lemma_remove_identity(q, params, dom);
}

/// Replace mode keeps the pair count and every key in place, gives every
/// tracked pair the replacement text as value, and leaves untracked pairs
/// unchanged.
pub proof fn lemma_replace_shape(
    q: Seq<(Seq<char>, Seq<char>)>,
    params: Seq<Seq<char>>,
    dom: Option<Seq<char>>,
    to: Seq<char>,
)
    ensures
        replace_spec(q, params, dom, to).len() == q.len(),
        forall|k: int|
            0 <= k < q.len() ==> (#[trigger] replace_spec(q, params, dom, to)[k]).0 == q[k].0,
        forall|k: int|
            0 <= k < q.len() && is_tracked(params, dom, q[k].0) ==> (#[trigger] replace_spec(
                q,
                params,
                dom,
                to,
            )[k]).1 == to,
        forall|k: int|
            0 <= k < q.len() && !is_tracked(params, dom, q[k].0) ==> #[trigger] replace_spec(
                q,
                params,
                dom,
                to,
            )[k] == q[k],
    decreases q.len(),
{
    if q.len() > 0 {
        lemma_replace_shape(q.drop_last(), params, dom, to);
        assert(forall|k: int| 0 <= k < q.len() - 1 ==> #[trigger] q.drop_last()[k] == q[k]);
    }
}

/// A name tracked only in domain-scoped form is tracked exactly for that
/// domain: the scoped entry makes the name tracked there, and a name with
/// neither a bare entry nor a matching scoped entry is not tracked.
pub proof fn lemma_scoped_tracking(params: Seq<Seq<char>>, d: Seq<char>, key: Seq<char>)
    ensures
        params.contains(scoped_key(d, key)) ==> is_tracked(params, Some(d), key),
        !params.contains(key) && !params.contains(scoped_key(d, key)) ==> !is_tracked(
            params,
            Some(d),
            key,
        ),
        !params.contains(key) ==> !is_tracked(params, None::<Seq<char>>, key),
{
}

} // verus!
