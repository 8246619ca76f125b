use crate::mode::Mode;
use crate::params::default_params_spec;
use crate::params::get_default_params;
use vstd::prelude::*;

verus! {

/// The parameter names a default configuration tracks: the classic tracking
/// keys, plus YouTube's share identifier scoped to the `youtu.be` domain.
pub open spec fn default_tracked_spec() -> Seq<Seq<char>> {
    default_params_spec().push("youtu.be``si"@)
}

fn default_tracked() -> (r: Vec<String>)
    ensures
        r.deep_view() == default_tracked_spec(),
{
    let mut v = get_default_params();
    let ghost v0 = v.deep_view();
    v.push("youtu.be``si".to_owned());
    proof {
        assert(v.deep_view() =~= v0.push("youtu.be``si"@));
    }
    v
}

/// The exit-URL rules applied by default: each row holds a host/path pattern
/// followed by the names of the query parameters that carry the redirect
/// target, in the order they should be preferred.
pub open spec fn default_exit_spec() -> Seq<Seq<Seq<char>>> {
    seq![
        seq!["vk.com/away.php"@, "to"@],
        seq!["exit.sc/"@, "url"@],
        seq!["facebook.com/(l|confirmemail|login).php"@, "u"@, "next"@],
        seq![
            "(www.|)(encrypted.|)google.(at|be|ca|ch|co.(bw|il|uk)|com(|.(ar|au|br|eg|tr|tw))|cl|de|dk|es|fr|nl|pl|se)/url"@,
            "url"@,
        ],
        seq!["l.instagram.com/"@, "u"@],
        seq!["youtube.com/redirect"@, "q"@],
        seq!["linkedin.com/authwall"@, "sessionRedirect"@],
        seq!["mora.jp/cart"@, "returnUrl"@],
    ]
}

fn exit_row_2(a: &str, b: &str) -> (r: Vec<String>)
    ensures
        r.deep_view() =~= seq![a@, b@],
{
    let mut row: Vec<String> = Vec::new();
    row.push(a.to_owned());
    row.push(b.to_owned());
    row
}

fn exit_row_3(a: &str, b: &str, c: &str) -> (r: Vec<String>)
    ensures
        r.deep_view() =~= seq![a@, b@, c@],
{
    let mut row: Vec<String> = Vec::new();
    row.push(a.to_owned());
    row.push(b.to_owned());
    row.push(c.to_owned());
    row
}

/// The default exit-URL rules.
pub fn get_default_exit() -> (r: Vec<Vec<String>>)
    ensures
        r.deep_view() == default_exit_spec(),
{
    let mut v: Vec<Vec<String>> = Vec::new();
    v.push(exit_row_2("vk.com/away.php", "to"));
    v.push(exit_row_2("exit.sc/", "url"));
    v.push(exit_row_3("facebook.com/(l|confirmemail|login).php", "u", "next"));
    v.push(
        exit_row_2(
            "(www.|)(encrypted.|)google.(at|be|ca|ch|co.(bw|il|uk)|com(|.(ar|au|br|eg|tr|tw))|cl|de|dk|es|fr|nl|pl|se)/url",
            "url",
        ),
    );
    v.push(exit_row_2("l.instagram.com/", "u"));
    v.push(exit_row_2("youtube.com/redirect", "q"));
    v.push(exit_row_2("linkedin.com/authwall", "sessionRedirect"));
    v.push(exit_row_2("mora.jp/cart", "returnUrl"));
    proof {
        assert(v.deep_view() =~= default_exit_spec());
    }
    v
}

/// The immutable configuration a sanitizer is built from: the rewrite mode,
/// the replacement text used by `Replace`, the polling cadence kept for the
/// surrounding application, the tracked parameter names (bare, or scoped as
/// `domain` + two backticks + `name`), the exit-URL rules, and a verbosity
/// flag for the surrounding application.
#[derive(Debug)]
pub struct ClinkConfig {
    pub mode: Mode,
    pub replace_to: String,
    pub sleep_duration: u64,
    pub params: Vec<String>,
    pub exit: Vec<Vec<String>>,
    pub verbose: bool,
}

impl ClinkConfig {
    /// The default configuration, with the chosen mode.
    pub fn new(mode: Mode) -> (r: Self)
        ensures
            r.mode == mode,
            r.replace_to@ == "clink"@,
            r.sleep_duration == 150,
            r.params.deep_view() == default_tracked_spec(),
            r.exit.deep_view() == default_exit_spec(),
            r.verbose == false,
    {
        ClinkConfig {
            mode,
            replace_to: "clink".to_owned(),
            sleep_duration: 150,
            params: default_tracked(),
            exit: get_default_exit(),
            verbose: false,
        }
    }
}

impl Default for ClinkConfig {
    /// The default configuration removes tracked parameters.
    fn default() -> (r: Self)
        ensures
            r.mode == Mode::Remove,
            r.replace_to@ == "clink"@,
            r.sleep_duration == 150,
            r.params.deep_view() == default_tracked_spec(),
            r.exit.deep_view() == default_exit_spec(),
            r.verbose == false,
    {
        Self::new(Mode::Remove)
    }
}

} // verus!
