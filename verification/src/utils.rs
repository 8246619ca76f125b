use crate::config::ClinkConfig;
use crate::mode::Mode;
use crate::params::ParamIndex;
use crate::query::pairs_rel;
use crate::query::process_query;
use crate::scan::find_links;
use crate::scan::fold_replace;
use crate::scan::lemma_fold_push;
use crate::scan::links_of;
use crate::scan::replace_all;
use crate::url_parts::parse_components;
use crate::url_parts::rebuild_spec;
use crate::url_parts::rebuild_url;
use crate::url_parts::url_ok;
use crate::url_parts::url_query;
use vstd::prelude::*;

verus! {

/// How one link may be rewritten by the index-driven rewriter: a link that
/// does not parse is left unchanged; otherwise its decoded query pairs are
/// transformed by the mode, matching bare keys against the index's names
/// with no domain scoping, and the URL is rebuilt around the new pairs.
pub open spec fn plain_rewrite_rel(
    mode: Mode,
    keys: Seq<Seq<char>>,
    to: Seq<char>,
    link: Seq<char>,
    out: Seq<char>,
) -> bool {
    if !url_ok(link) {
        out == link
    } else {
        exists|np: Seq<(Seq<char>, Seq<char>)>|
            pairs_rel(mode, keys, None::<Seq<char>>, to, url_query(link), np) && out
                == rebuild_spec(link, np)
    }
}

/// How a whole text may be rewritten by the index-driven rewriter: each link
/// the scanner finds, in order, is rewritten, and every occurrence of the
/// original link text is replaced by the rewritten URL.
pub open spec fn plain_sanitize_rel(
    mode: Mode,
    keys: Seq<Seq<char>>,
    to: Seq<char>,
    text: Seq<char>,
    out: Seq<char>,
) -> bool {
    exists|mids: Seq<Seq<char>>|
        {
            &&& mids.len() == links_of(text).len()
            &&& (forall|k: int|
                0 <= k < mids.len() ==> plain_rewrite_rel(
                    mode,
                    keys,
                    to,
                    links_of(text)[k],
                    #[trigger] mids[k],
                ))
            &&& out == fold_replace(text, links_of(text), mids)
        }
}

/// Rewrites every URL found in the text, under the configuration's mode and
/// replacement text, with the index's names as the tracked set; matching is
/// by bare key only, and no exit unwrapping takes place.
pub fn find_and_replace(str: &str, config: &ClinkConfig, index: &ParamIndex) -> (res: String)
    ensures
        plain_sanitize_rel(config.mode, index.keys.deep_view(), config.replace_to@, str@, res@),
{
    let ghost lv = links_of(str@);
    let links = find_links(str);
    let mut res: String = str.to_owned();
    let ghost mut mids: Seq<Seq<char>> = Seq::empty();
    let no_dom: Option<String> = None;
    let mut i: usize = 0;
    proof {
        assert(lv.take(0) =~= Seq::<Seq<char>>::empty());
    }
    while i < links.len()
        invariant
            i <= links.len(),
            links.deep_view() == lv,
            lv == links_of(str@),
            no_dom.deep_view() is None,
            forall|k: int| 0 <= k < lv.len() ==> lv[k].len() > 0,
            mids.len() == i,
            forall|k: int|
                0 <= k < i ==> plain_rewrite_rel(
                    config.mode,
                    index.keys.deep_view(),
                    config.replace_to@,
                    lv[k],
                    #[trigger] mids[k],
                ),
            res@ == fold_replace(str@, lv.take(i as int), mids),
        decreases links.len() - i,
    {
        let link = &links[i];
        proof {
            assert(link@ == lv[i as int]);
        }
        let out = match parse_components(link.as_str()) {
            None => link.clone(),
            Some(parts) => {
                let np = process_query(
                    &parts.pairs,
                    config.mode,
                    &index.keys,
                    &no_dom,
                    config.replace_to.as_str(),
                );
                rebuild_url(link.as_str(), &np)
            },
        };
        let ghost mids0 = mids;
        proof {
            mids = mids.push(out@);
            assert(plain_rewrite_rel(
                config.mode,
                index.keys.deep_view(),
                config.replace_to@,
                lv[i as int],
                out@,
            ));
        }
        res = replace_all(res.as_str(), link.as_str(), out.as_str());
        proof {
            assert(lv.take(i + 1 as int) =~= lv.take(i as int).push(lv[i as int]));
            lemma_fold_push(str@, lv.take(i as int), mids0, lv[i as int], out@);
        }
        i += 1;
    }
    proof {
        assert(lv.take(lv.len() as int) =~= lv);
        assert(plain_sanitize_rel(
            config.mode,
            index.keys.deep_view(),
            config.replace_to@,
            str@,
            res@,
        )) by {
            assert(mids.len() == links_of(str@).len());
            assert(res@ == fold_replace(str@, links_of(str@), mids));
        }
    }
    res
}

} // verus!
