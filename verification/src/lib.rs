use vstd::prelude::*;

pub mod clink;
pub mod config;
pub mod expand_string;
pub mod mode;
pub mod params;
pub mod query;
pub mod scan;
pub mod strings;
pub mod url_parts;
pub mod utils;

use crate::query::filter_pairs;
use crate::query::remove_spec;
use crate::query::replace_pairs;
use crate::query::replace_spec;
use crate::query::vec_contains_str;
use crate::scan::find_links;
use crate::scan::fold_replace;
use crate::scan::lemma_fold_push;
use crate::scan::links_of;
use crate::scan::replace_all;
use crate::url_parts::parse_components;
use crate::url_parts::rebuild_spec;
use crate::url_parts::rebuild_url;
use crate::url_parts::url_ok;
use crate::url_parts::url_query;

verus! {

/// The tracked names of the basic rewriter: the four classic tracking keys.
pub open spec fn basic_params_spec() -> Seq<Seq<char>> {
    seq!["fbclid"@, "utm_source"@, "utm_campaign"@, "utm_medium"@]
}

fn basic_params() -> (r: Vec<String>)
    ensures
        r.deep_view() == basic_params_spec(),
{
    let mut v: Vec<String> = Vec::new();
    v.push("fbclid".to_owned());
    v.push("utm_source".to_owned());
    v.push("utm_campaign".to_owned());
    v.push("utm_medium".to_owned());
    proof {
        assert(v.deep_view() =~= basic_params_spec());
    }
    v
}

/// Whether the name is one of the basic rewriter's tracked keys.
pub fn is_hit(p: &str) -> (r: bool)
    ensures
        r == basic_params_spec().contains(p@),
{
    let params = basic_params();
    vec_contains_str(&params, p)
}

/// The two rewrite strategies of the basic rewriter: drop every tracked
/// pair, or overwrite every tracked value.
#[derive(Clone, Copy, Debug, PartialEq, Eq, Structural)]
pub enum ProcessTypes {
    REMOVE,
    YourMom,
}

/// What the basic rewriter does to one URL's decoded query pairs.
pub open spec fn basic_pairs_spec(
    pt: ProcessTypes,
    q: Seq<(Seq<char>, Seq<char>)>,
) -> Seq<(Seq<char>, Seq<char>)> {
    match pt {
        ProcessTypes::REMOVE => remove_spec(q, basic_params_spec(), None::<Seq<char>>),
        ProcessTypes::YourMom => replace_spec(
            q,
            basic_params_spec(),
            None::<Seq<char>>,
            "your_mom"@,
        ),
    }
}

/// One link rewritten by the basic rewriter: a link that does not parse is
/// left unchanged; otherwise the URL is rebuilt around the transformed pairs.
pub open spec fn basic_rewrite(pt: ProcessTypes, link: Seq<char>) -> Seq<char> {
    if !url_ok(link) {
        link
    } else {
        rebuild_spec(link, basic_pairs_spec(pt, url_query(link)))
    }
}

/// Every link of the text rewritten by the basic rewriter, in scanner order.
pub open spec fn basic_outs(pt: ProcessTypes, text: Seq<char>) -> Seq<Seq<char>> {
    Seq::new(links_of(text).len(), |k: int| basic_rewrite(pt, links_of(text)[k]))
}

/// The whole text rewritten by the basic rewriter.
pub open spec fn basic_sanitize(pt: ProcessTypes, text: Seq<char>) -> Seq<char> {
    fold_replace(text, links_of(text), basic_outs(pt, text))
}

/// Rewrites every URL found in the text with the basic rewriter: tracked
/// pairs among the four classic keys are dropped, or their values replaced.
pub fn find_and_replace(str: &String, process_type: &ProcessTypes) -> (res: String)
    ensures
        res@ == basic_sanitize(*process_type, str@),
{
    let pt = *process_type;
    let params = basic_params();
    let no_dom: Option<String> = None;
    let ghost lv = links_of(str@);
    let ghost mids = basic_outs(pt, str@);
    let links = find_links(str.as_str());
    let mut res: String = str.clone();
    let mut i: usize = 0;
    proof {
        assert(lv.take(0) =~= Seq::<Seq<char>>::empty());
        assert(mids.take(0) =~= Seq::<Seq<char>>::empty());
    }
    while i < links.len()
        invariant
            i <= links.len(),
            pt == *process_type,
            params.deep_view() == basic_params_spec(),
            no_dom.deep_view() is None,
            links.deep_view() == lv,
            lv == links_of(str@),
            mids == basic_outs(pt, str@),
            forall|k: int| 0 <= k < lv.len() ==> lv[k].len() > 0,
            res@ == fold_replace(str@, lv.take(i as int), mids.take(i as int)),
        decreases links.len() - i,
    {
        let link = &links[i];
        proof {
            assert(link@ == lv[i as int]);
        }
        let out = match parse_components(link.as_str()) {
            None => link.clone(),
            Some(parts) => {
                let np = match pt {
                    ProcessTypes::REMOVE => filter_pairs(&parts.pairs, &params, &no_dom),
                    ProcessTypes::YourMom => replace_pairs(
                        &parts.pairs,
                        &params,
                        &no_dom,
                        "your_mom",
                    ),
                };
                rebuild_url(link.as_str(), &np)
            },
        };
        proof {
            assert(out@ == basic_rewrite(pt, lv[i as int]));
            assert(mids[i as int] == out@);
        }
        res = replace_all(res.as_str(), link.as_str(), out.as_str());
        proof {
            assert(lv.take(i + 1 as int) =~= lv.take(i as int).push(lv[i as int]));
            assert(mids.take(i + 1 as int) =~= mids.take(i as int).push(mids[i as int]));
            lemma_fold_push(str@, lv.take(i as int), mids.take(i as int), lv[i as int], out@);
        }
        i += 1;
    }
    proof {
        assert(lv.take(lv.len() as int) =~= lv);
        assert(mids.take(lv.len() as int) =~= mids);
    }
    res
}

} // verus!
