use crate::config::ClinkConfig;
use crate::expand_string::expand_spec;
use crate::expand_string::expand_string;
use crate::expand_string::PatternSyntaxError;
use crate::query::pairs_rel;
use crate::query::process_query;
use crate::query::vec_contains_str;
use crate::scan::find_links;
use crate::scan::fold_replace;
use crate::scan::lemma_fold_push;
use crate::scan::links_of;
use crate::scan::replace_all;
use crate::strings::str_eq;
use crate::strings::strip_www;
use crate::strings::strip_www_spec;
use crate::url_parts::parse_components;
use crate::url_parts::rebuild_spec;
use crate::url_parts::rebuild_url;
use crate::url_parts::url_domain;
use crate::url_parts::url_ok;
use crate::url_parts::url_path;
use crate::url_parts::url_query;
use vstd::pervasive::unreached;
use vstd::prelude::*;
use vstd::string::StringExecFns;

verus! {

/// The table rows a single rule contributes: one entry per expanded pattern
/// key, each carrying the rule's redirect-parameter names in order.
pub open spec fn row_entries(row: Seq<Seq<char>>) -> Seq<(Seq<char>, Seq<Seq<char>>)>
    recommends
        row.len() >= 1,
        expand_spec(row[0]) is Some,
{
    let keys = expand_spec(row[0]).unwrap();
    Seq::new(keys.len(), |k: int| (keys[k], row.skip(1)))
}

/// The exit table built from the rules, in registration order; entries of
/// later rules stand behind those of earlier ones and win on lookup.
pub open spec fn table_spec(rules: Seq<Seq<Seq<char>>>) -> Seq<(Seq<char>, Seq<Seq<char>>)>
    decreases rules.len(),
{
    if rules.len() == 0 {
        Seq::empty()
    } else {
        table_spec(rules.drop_last()) + row_entries(rules.last())
    }
}

/// Whether every exit rule is well-formed: each row holds a pattern whose
/// group delimiters balance, followed by its redirect-parameter names.
pub open spec fn rules_ok(rules: Seq<Seq<Seq<char>>>) -> bool {
    forall|k: int|
        0 <= k < rules.len() ==> (#[trigger] rules[k]).len() >= 1 && expand_spec(rules[k][0])
            is Some
}

/// The redirect-parameter names registered for a lookup key: the last
/// matching entry wins, and matching is exact.
pub open spec fn table_lookup(
    entries: Seq<(Seq<char>, Seq<Seq<char>>)>,
    key: Seq<char>,
) -> Option<Seq<Seq<char>>>
    decreases entries.len(),
{
    if entries.len() == 0 {
        None
    } else if entries.last().0 == key {
        Some(entries.last().1)
    } else {
        table_lookup(entries.drop_last(), key)
    }
}

/// The first query pair, in query order, whose key is one of the redirect
/// parameters and whose decoded value is non-empty; its value is the
/// redirect target.
pub open spec fn first_exit(q: Seq<(Seq<char>, Seq<char>)>, names: Seq<Seq<char>>) -> Option<
    Seq<char>,
>
    decreases q.len(),
{
    if q.len() == 0 {
        None
    } else if names.contains(q[0].0) && q[0].1.len() > 0 {
        Some(q[0].1)
    } else {
        first_exit(q.drop_first(), names)
    }
}

/// The exit-table lookup key of a URL: its domain — the empty string when
/// the host is not a domain name — concatenated with its path.
pub open spec fn exit_key(url: Seq<char>) -> Seq<char> {
    (match url_domain(url) {
        Some(d) => d,
        None => Seq::<char>::empty(),
    }) + url_path(url)
}

/// The unwrapped form of a URL: when its domain-plus-path key is in the exit
/// table and one of the listed redirect parameters holds a non-empty value,
/// that value; in every other case — an unparsable URL, an unknown key, or
/// no populated redirect parameter — the URL itself.
pub open spec fn unwrap_spec(table: Seq<(Seq<char>, Seq<Seq<char>>)>, url: Seq<char>) -> Seq<
    char,
> {
    if !url_ok(url) {
        url
    } else {
        match table_lookup(table, exit_key(url)) {
            None => url,
            Some(names) => match first_exit(url_query(url), names) {
                None => url,
                Some(v) => v,
            },
        }
    }
}

/// Builds the exit table: each rule's pattern is expanded, and every literal
/// key it denotes is registered with the rule's redirect-parameter names. A
/// rule without a pattern, or with unbalanced delimiters, is a syntax error.
pub fn build_exit_map(rules: &Vec<Vec<String>>) -> (r: Result<
    Vec<(String, Vec<String>)>,
    PatternSyntaxError,
>)
    ensures
        match r {
            Ok(m) => rules_ok(rules.deep_view()) && m.deep_view() == table_spec(
                rules.deep_view(),
            ),
            Err(_) => !rules_ok(rules.deep_view()),
        },
{
    let ghost rv = rules.deep_view();
    let mut m: Vec<(String, Vec<String>)> = Vec::new();
    let mut i: usize = 0;
    proof {
        assert(m.deep_view() =~~= table_spec(rv.take(0)));
    }
    while i < rules.len()
        invariant
            i <= rules.len(),
            rules.deep_view() == rv,
            rules_ok(rv.take(i as int)),
            m.deep_view() == table_spec(rv.take(i as int)),
        decreases rules.len() - i,
    {
        let row = &rules[i];
        let ghost rowv = rv[i as int];
        proof {
            assert(rowv == row.deep_view());
        }
        if row.len() == 0 {
            proof {
                assert(!rules_ok(rv)) by {
                    assert(rv[i as int].len() == 0);
                }
            }
            return Err(PatternSyntaxError);
        }
        let keys = match expand_string(row[0].as_str()) {
            Ok(keys) => keys,
            Err(e) => {
                proof {
                    assert(!rules_ok(rv)) by {
                        assert(expand_spec(rv[i as int][0]) is None);
                    }
                }
                return Err(e);
            },
        };
        let ghost keysv = keys.deep_view();
        proof {
            assert(expand_spec(rowv[0]) == Some(keysv));
        }
        let mut k: usize = 0;
        proof {
            assert(row_entries(rowv).len() == keysv.len());
        }
        while k < keys.len()
            invariant
                k <= keys.len(),
                keys.deep_view() == keysv,
                rules.deep_view() == rv,
                i < rules.len(),
                rv[i as int].len() >= 1,
                expand_spec(rv[i as int][0]) == Some(keysv),
                m.deep_view() == table_spec(rv.take(i as int)) + row_entries(rv[i as int]).take(
                    k as int,
                ),
            decreases keys.len() - k,
        {
            let mut tail: Vec<String> = Vec::new();
            let mut j: usize = 1;
            proof {
                assert(tail.deep_view() =~= rv[i as int].subrange(1, 1));
            }
            while j < rules[i].len()
                invariant
                    1 <= j <= rv[i as int].len(),
                    rules.deep_view() == rv,
                    i < rules.len(),
                    tail.deep_view() == rv[i as int].subrange(1, j as int),
                decreases rv[i as int].len() - j,
            {
                let ghost tail0 = tail.deep_view();
                tail.push(rules[i][j].clone());
                proof {
                    assert(tail0 == rv[i as int].subrange(1, j as int));
                    assert(tail.deep_view() =~= rv[i as int].subrange(1, j + 1 as int));
                }
                j += 1;
            }
            proof {
                assert(rv[i as int].subrange(1, rv[i as int].len() as int) =~= rv[
                    i as int].skip(1));
            }
            let entry = (keys[k].clone(), tail);
            let ghost entryv = entry.deep_view();
            let ghost m0 = m.deep_view();
            m.push(entry);
            proof {
                let re = row_entries(rv[i as int]);
                assert(entryv == (keysv[k as int], rv[i as int].skip(1)));
                assert(entryv == re[k as int]);
                assert(m.deep_view().len() == m0.len() + 1);
                assert forall|t: int| 0 <= t < m0.len() + 1 implies m.deep_view()[t] == m0.push(
                    entryv,
                )[t] by {
                    if t < m0.len() {
                        assert(m.deep_view()[t] == m0[t]);
                    } else {
                        assert(m.deep_view()[t] == entryv);
                    }
                }
                assert(m.deep_view() =~= m0.push(entryv));
                assert(re.take(k + 1 as int) =~= re.take(k as int).push(re[k as int]));
                assert(m.deep_view() =~= table_spec(rv.take(i as int)) + re.take(k + 1 as int));
            }
            k += 1;
        }
        proof {
            let re = row_entries(rv[i as int]);
            assert(re.take(keysv.len() as int) =~= re);
            assert(rv.take(i + 1 as int).drop_last() =~= rv.take(i as int));
            assert(rv.take(i + 1 as int).last() == rv[i as int]);
            assert(m.deep_view() == table_spec(rv.take(i + 1 as int)));
            assert(rules_ok(rv.take(i + 1 as int))) by {
                assert(forall|t: int|
                    0 <= t < i ==> rv.take(i + 1 as int)[t] == #[trigger] rv.take(i as int)[t]);
                assert(rv.take(i + 1 as int)[i as int] == rv[i as int]);
            }
        }
        i += 1;
    }
    proof {
        assert(rv.take(rv.len() as int) =~= rv);
    }
    Ok(m)
}

/// Whether every configured exit rule is well-formed, so that a sanitizer
/// can be built from the configuration.
pub fn exit_rules_ok(rules: &Vec<Vec<String>>) -> (r: bool)
    ensures
        r == rules_ok(rules.deep_view()),
{
    match build_exit_map(rules) {
        Ok(_) => true,
        Err(_) => false,
    }
}

/// The sanitizer: an immutable configuration and the exit table built once
/// from its rules.
pub struct Clink {
    pub config: ClinkConfig,
    pub exit_map: Vec<(String, Vec<String>)>,
}

impl Clink {
    /// Builds a sanitizer from a configuration whose exit rules are
    /// well-formed; `exit_rules_ok` decides that condition.
    pub fn new(config: ClinkConfig) -> (r: Self)
        requires
            rules_ok(config.exit.deep_view()),
        ensures
            r.config == config,
            r.exit_map.deep_view() == table_spec(config.exit.deep_view()),
    {
        let exit_map = match build_exit_map(&config.exit) {
            Ok(m) => m,
            Err(_) => unreached(),
        };
        Clink { config, exit_map }
    }

    /// The last-registered redirect-parameter list for an exact lookup key.
    fn lookup_exit<'a>(&'a self, key: &str) -> (r: Option<&'a Vec<String>>)
        ensures
            match r {
                Some(v) => table_lookup(self.exit_map.deep_view(), key@) == Some(v.deep_view()),
                None => table_lookup(self.exit_map.deep_view(), key@) is None,
            },
    {
        let ghost ev = self.exit_map.deep_view();
        let mut i: usize = self.exit_map.len();
        proof {
            assert(ev.take(ev.len() as int) =~= ev);
        }
        while i > 0
            invariant
                i <= self.exit_map.len(),
                self.exit_map.deep_view() == ev,
                table_lookup(ev, key@) == table_lookup(ev.take(i as int), key@),
            decreases i,
        {
            i -= 1;
            proof {
                assert(ev.take(i + 1 as int).last() == ev[i as int]);
                assert(ev.take(i + 1 as int).drop_last() =~= ev.take(i as int));
            }
            if str_eq(key, self.exit_map[i].0.as_str()) {
                proof {
                    assert(ev[i as int].0 == key@);
                }
                return Some(&self.exit_map[i].1);
            }
        }
        None
    }

    /// Resolves an exit URL to the destination hidden in its query: when the
    /// URL's domain-plus-path key is registered and a listed redirect
    /// parameter holds a non-empty value, that value replaces the URL;
    /// otherwise the URL comes back unchanged.
    pub fn unwrap_exit_params(&self, url: &str) -> (r: String)
        ensures
            r@ == unwrap_spec(self.exit_map.deep_view(), url@),
    {
        let parts = match parse_components(url) {
            Some(p) => p,
            None => {
                return url.to_owned();
            },
        };
        let mut key: String = match parts.domain {
            Some(d) => d,
            None => String::new(),
        };
        key.append(parts.path.as_str());
        let names = match self.lookup_exit(key.as_str()) {
            Some(names) => names,
            None => {
                return url.to_owned();
            },
        };
        let ghost qv = url_query(url@);
        let mut i: usize = 0;
        proof {
            assert(qv.skip(0) =~= qv);
        }
        proof {
            assert(key@ == exit_key(url@));
        }
        while i < parts.pairs.len()
            invariant
                i <= parts.pairs.len(),
                parts.pairs.deep_view() == qv,
                url_ok(url@),
                qv == url_query(url@),
                table_lookup(self.exit_map.deep_view(), exit_key(url@)) == Some(
                    names.deep_view(),
                ),
                first_exit(qv, names.deep_view()) == first_exit(
                    qv.skip(i as int),
                    names.deep_view(),
                ),
            decreases parts.pairs.len() - i,
        {
            proof {
                assert(qv[i as int] == (parts.pairs@[i as int].0@, parts.pairs@[i as int].1@));
                assert(qv.skip(i as int)[0] == qv[i as int]);
                assert(qv.skip(i as int).drop_first() =~= qv.skip(i + 1 as int));
            }
            let name_match = vec_contains_str(names, parts.pairs[i].0.as_str());
            if name_match && !parts.pairs[i].1.as_str().is_empty() {
                let target = parts.pairs[i].1.clone();
                proof {
                    assert(names.deep_view().contains(qv[i as int].0));
                    assert(qv[i as int].1.len() > 0);
                    assert(first_exit(qv.skip(i as int), names.deep_view()) == Some(
                        qv[i as int].1,
                    ));
                    assert(first_exit(url_query(url@), names.deep_view()) == Some(target@));
                    assert(unwrap_spec(self.exit_map.deep_view(), url@) == target@);
                }
                return target;
            }
            i += 1;
        }
        proof {
            assert(qv.skip(qv.len() as int) =~= Seq::<(Seq<char>, Seq<char>)>::empty());
        }
        url.to_owned()
    }

    /// How one link may be rewritten: the link is unwrapped through the exit
    /// table; a result that does not parse is left untouched; otherwise its
    /// decoded query pairs are transformed by the configured mode — matching
    /// tracked names bare or scoped to the lower-cased, `www.`-stripped
    /// domain — and the URL is rebuilt around the new pairs.
    pub open spec fn rewrite_rel(&self, link: Seq<char>, out: Seq<char>) -> bool {
        let u = unwrap_spec(self.exit_map.deep_view(), link);
        if !url_ok(u) {
            out == link
        } else {
            let dom = match url_domain(u) {
                Some(d) => Some(strip_www_spec(d)),
                None => None::<Seq<char>>,
            };
            exists|np: Seq<(Seq<char>, Seq<char>)>|
                pairs_rel(
                    self.config.mode,
                    self.config.params.deep_view(),
                    dom,
                    self.config.replace_to@,
                    url_query(u),
                    np,
                ) && out == rebuild_spec(u, np)
        }
    }

    /// How a whole text may be rewritten: each link the scanner finds, in
    /// order, is rewritten as `rewrite_rel` allows, and every occurrence of
    /// the original link text is replaced by the rewritten URL.
    pub open spec fn sanitize_rel(&self, text: Seq<char>, out: Seq<char>) -> bool {
        exists|mids: Seq<Seq<char>>|
            {
                &&& mids.len() == links_of(text).len()
                &&& (forall|k: int|
                    0 <= k < mids.len() ==> self.rewrite_rel(links_of(text)[k], #[trigger] mids[k]))
                &&& out == fold_replace(text, links_of(text), mids)
            }
    }

    /// Rewrites one link: unwraps it, transforms its query, and rebuilds it.
    fn rewrite_link(&self, link: &String) -> (r: String)
        ensures
            self.rewrite_rel(link@, r@),
    {
        let unwrapped = self.unwrap_exit_params(link.as_str());
        let parts = match parse_components(unwrapped.as_str()) {
            Some(p) => p,
            None => {
                return link.clone();
            },
        };
        let dom: Option<String> = match &parts.domain {
            Some(d) => Some(strip_www(d.as_str())),
            None => None,
        };
        let np = process_query(
            &parts.pairs,
            self.config.mode,
            &self.config.params,
            &dom,
            self.config.replace_to.as_str(),
        );
        let r = rebuild_url(unwrapped.as_str(), &np);
        proof {
            let u = unwrap_spec(self.exit_map.deep_view(), link@);
            assert(u == unwrapped@);
            assert(pairs_rel(
                self.config.mode,
                self.config.params.deep_view(),
                dom.deep_view(),
                self.config.replace_to@,
                url_query(u),
                np.deep_view(),
            ));
            assert(r@ == rebuild_spec(u, np.deep_view()));
        }
        r
    }

    /// Rewrites every URL the scanner finds in the text: each link is
    /// unwrapped through the exit table, its query is transformed by the
    /// configured mode, and the literal link text is replaced throughout by
    /// the rebuilt URL.
    pub fn find_and_replace(&self, text: &str) -> (r: String)
        ensures
            self.sanitize_rel(text@, r@),
    {
        let ghost lv = links_of(text@);
        let links = find_links(text);
        let mut res: String = text.to_owned();
        let ghost mut mids: Seq<Seq<char>> = Seq::empty();
        let mut i: usize = 0;
        proof {
            assert(lv.take(0) =~= Seq::<Seq<char>>::empty());
        }
        while i < links.len()
            invariant
                i <= links.len(),
                links.deep_view() == lv,
                forall|k: int| 0 <= k < lv.len() ==> lv[k].len() > 0,
                mids.len() == i,
                forall|k: int| 0 <= k < i ==> self.rewrite_rel(lv[k], #[trigger] mids[k]),
                res@ == fold_replace(text@, lv.take(i as int), mids),
            decreases links.len() - i,
        {
            let out = self.rewrite_link(&links[i]);
            let ghost mids0 = mids;
            proof {
                mids = mids.push(out@);
                assert(links@[i as int]@ == lv[i as int]);
            }
            let ghost res0 = res@;
            res = replace_all(res.as_str(), links[i].as_str(), out.as_str());
            proof {
                assert(lv.take(i + 1 as int) =~= lv.take(i as int).push(lv[i as int]));
                lemma_fold_push(text@, lv.take(i as int), mids0, lv[i as int], out@);
                assert(res@ == fold_replace(text@, lv.take(i + 1 as int), mids));
            }
            i += 1;
        }
        proof {
            assert(lv.take(lv.len() as int) =~= lv);
            assert(self.sanitize_rel(text@, res@)) by {
                assert(mids.len() == lv.len());
                assert(res@ == fold_replace(text@, links_of(text@), mids));
            }
        }
        res
    }
}

} // verus!
