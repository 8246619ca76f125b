use crate::strings::chars_of;
use crate::strings::string_of;
use vstd::prelude::*;

verus! {

/// The URL-shaped spans linkify's finder locates in the text, in order.
pub uninterp spec fn links_of(text: Seq<char>) -> Seq<Seq<char>>;

/// Relies on linkify's `LinkFinder`, restricted to URL links: the link spans
/// found in the text, in order; every span is a non-empty substring of the
/// text.
#[verifier::external_body]
pub fn find_links(text: &str) -> (r: Vec<String>)
    ensures
        r.deep_view() == links_of(text@),
        forall|k: int| 0 <= k < r.deep_view().len() ==> r.deep_view()[k].len() > 0,
{
    let mut finder = linkify::LinkFinder::new();
    finder.kinds(&[linkify::LinkKind::Url]);
    finder.links(text).map(|l| l.as_str().to_string()).collect()
}

/// The text with every occurrence of `from` replaced by `to`: matches are
/// found left to right and do not overlap. A pattern longer than the rest of
/// the text no longer matches; an empty pattern leaves the text unchanged.
pub open spec fn replace_all_spec(s: Seq<char>, from: Seq<char>, to: Seq<char>) -> Seq<char>
    decreases s.len(),
{
    if from.len() == 0 {
        s
    } else if s.len() < from.len() {
        s
    } else if s.take(from.len() as int) == from {
        to + replace_all_spec(s.skip(from.len() as int), from, to)
    } else {
        seq![s[0]] + replace_all_spec(s.skip(1), from, to)
    }
}

/// Whether the characters of `fc` stand in `sc` at position `i`.
fn match_at(sc: &Vec<char>, fc: &Vec<char>, i: usize) -> (r: bool)
    requires
        i + fc@.len() <= sc@.len(),
    ensures
        r == (sc@.subrange(i as int, i + fc@.len()) == fc@),
{
    let n = sc.len();
    let mut j: usize = 0;
    while j < fc.len()
        invariant
            n == sc@.len(),
            j <= fc@.len(),
            i + fc@.len() <= sc@.len(),
            forall|k: int| 0 <= k < j ==> sc@[i + k] == fc@[k],
        decreases fc@.len() - j,
    {
        if sc[i + j] != fc[j] {
            proof {
                assert(sc@.subrange(i as int, i + fc@.len())[j as int] != fc@[j as int]);
            }
            return false;
        }
        j += 1;
    }
    proof {
        assert(sc@.subrange(i as int, i + fc@.len()) =~= fc@);
    }
    true
}

/// The text with every occurrence of `from` replaced by `to`: matches are
/// found left to right and do not overlap.
pub fn replace_all(s: &str, from: &str, to: &str) -> (r: String)
    requires
        from@.len() > 0,
    ensures
        r@ == replace_all_spec(s@, from@, to@),
{
    let sc = chars_of(s);
    let fc = chars_of(from);
    let tc = chars_of(to);
    let mut out: Vec<char> = Vec::new();
    let mut i: usize = 0;
    proof {
        assert(s@.skip(0) =~= s@);
    }
    while i < sc.len()
        invariant
            i <= sc@.len(),
            sc@ == s@,
            fc@ == from@,
            tc@ == to@,
            from@.len() > 0,
            out@ + replace_all_spec(s@.skip(i as int), from@, to@) == replace_all_spec(
                s@,
                from@,
                to@,
            ),
        decreases sc@.len() - i,
    {
        if fc.len() <= sc.len() - i && match_at(&sc, &fc, i) {
            let ghost out0 = out@;
            let mut j: usize = 0;
            while j < tc.len()
                invariant
                    j <= tc@.len(),
                    tc@ == to@,
                    out@ == out0 + to@.take(j as int),
                decreases tc@.len() - j,
            {
                out.push(tc[j]);
                proof {
                    assert(out0 + to@.take(j as int).push(to@[j as int]) =~= out0 + to@.take(
                        j + 1 as int,
                    ));
                }
                j += 1;
            }
            proof {
                let rest = s@.skip(i as int);
                assert(out@ =~= out0 + to@) by {
                    assert(to@.take(to@.len() as int) =~= to@);
                }
                assert(rest.take(from@.len() as int) =~= s@.subrange(
                    i as int,
                    i + from@.len(),
                ));
                assert(rest.take(from@.len() as int) == from@);
                assert(rest.skip(from@.len() as int) =~= s@.skip(i + from@.len()));
                assert(replace_all_spec(rest, from@, to@) == to@ + replace_all_spec(
                    s@.skip(i + from@.len()),
                    from@,
                    to@,
                ));
                assert(out@ + replace_all_spec(s@.skip(i + from@.len()), from@, to@) =~= out0 + (
                to@ + replace_all_spec(s@.skip(i + from@.len()), from@, to@)));
            }
            i += fc.len();
        } else {
            let ghost out0 = out@;
            let c = sc[i];
            out.push(c);
            proof {
                let rest = s@.skip(i as int);
                assert(rest[0] == s@[i as int]);
                if i + from@.len() <= s@.len() {
                    assert(rest.take(from@.len() as int) =~= s@.subrange(
                        i as int,
                        i + from@.len(),
                    ));
                    assert(rest.take(from@.len() as int) != from@);
                }
                assert(rest.skip(1) =~= s@.skip(i + 1));
                assert(replace_all_spec(rest, from@, to@) == seq![s@[i as int]]
                    + replace_all_spec(s@.skip(i + 1), from@, to@)) by {
                    if rest.len() < from@.len() {
                        assert(rest =~= seq![s@[i as int]] + rest.skip(1));
                        assert(replace_all_spec(rest.skip(1), from@, to@) == rest.skip(1)) by {
                            assert(rest.skip(1).len() < from@.len());
                        }
                    }
                }
                assert(out@ + replace_all_spec(s@.skip(i + 1), from@, to@) =~= out0 + (seq![
                    s@[i as int]] + replace_all_spec(s@.skip(i + 1), from@, to@)));
            }
            i += 1;
        }
    }
    proof {
        assert(s@.skip(s@.len() as int) =~= Seq::<char>::empty());
        assert(out@ + replace_all_spec(Seq::<char>::empty(), from@, to@) =~= out@);
    }
    string_of(&out)
}

/// The text after each link, in order, is replaced throughout by its
/// rewritten form.
pub open spec fn fold_replace(t: Seq<char>, links: Seq<Seq<char>>, outs: Seq<Seq<char>>) -> Seq<
    char,
>
    recommends
        links.len() == outs.len(),
    decreases links.len(),
{
    if links.len() == 0 {
        t
    } else {
        fold_replace(
            replace_all_spec(t, links[0], outs[0]),
            links.drop_first(),
            outs.drop_first(),
        )
    }
}

/// Handling one more link continues the fold from the text built so far.
pub proof fn lemma_fold_push(
    t: Seq<char>,
    links: Seq<Seq<char>>,
    outs: Seq<Seq<char>>,
    l: Seq<char>,
    o: Seq<char>,
)
    requires
        links.len() == outs.len(),
    ensures
        fold_replace(t, links.push(l), outs.push(o)) == replace_all_spec(
            fold_replace(t, links, outs),
            l,
            o,
        ),
    decreases links.len(),
{
    if links.len() == 0 {
        let t2 = replace_all_spec(t, l, o);
        assert(links.push(l).drop_first() =~= Seq::<Seq<char>>::empty());
        assert(outs.push(o).drop_first() =~= Seq::<Seq<char>>::empty());
        assert(links.push(l)[0] == l);
        assert(fold_replace(t2, Seq::<Seq<char>>::empty(), Seq::<Seq<char>>::empty()) == t2);
        assert(fold_replace(t, links, outs) == t);
    } else {
        assert(links.push(l).drop_first() =~= links.drop_first().push(l));
        assert(outs.push(o).drop_first() =~= outs.drop_first().push(o));
        assert(links.push(l)[0] == links[0]);
        assert(outs.push(o)[0] == outs[0]);
        let t2 = replace_all_spec(t, links[0], outs[0]);
        assert(fold_replace(t, links.push(l), outs.push(o)) == fold_replace(
            t2,
            links.drop_first().push(l),
            outs.drop_first().push(o),
        ));
        lemma_fold_push(t2, links.drop_first(), outs.drop_first(), l, o);
        assert(fold_replace(t, links, outs) == fold_replace(
            t2,
            links.drop_first(),
            outs.drop_first(),
        ));
    }
}

} // verus!
