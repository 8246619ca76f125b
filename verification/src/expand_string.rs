use crate::strings::chars_of;
use vstd::prelude::*;
use vstd::string::StringExecFns;

verus! {

/// Reported when a pattern's group delimiters are unbalanced.
#[derive(Clone, Copy, Debug, PartialEq, Eq, Structural)]
pub struct PatternSyntaxError;

/// State of the pattern-expansion machine: a stack of prefix frames, the
/// alternatives of the innermost open group (if one is open), the running
/// literal accumulator, and whether the previous character closed a group.
pub ghost struct ExpState {
    pub stack: Seq<Seq<Seq<char>>>,
    pub group: Option<Seq<Seq<char>>>,
    pub acc: Seq<char>,
    pub just_closed: bool,
}

/// Every string of `frame`, extended at the end by `item`.
pub open spec fn append_all(frame: Seq<Seq<char>>, item: Seq<char>) -> Seq<Seq<char>> {
    Seq::new(frame.len(), |k: int| frame[k] + item)
}

/// The prefix `pl` extended by every string of `alts`, in order.
pub open spec fn cross_with(pl: Seq<char>, alts: Seq<Seq<char>>) -> Seq<Seq<char>> {
    Seq::new(alts.len(), |k: int| pl + alts[k])
}

/// Every string of `parents` extended by every string of `alts`, parent-major.
pub open spec fn product(parents: Seq<Seq<char>>, alts: Seq<Seq<char>>) -> Seq<Seq<char>>
    decreases parents.len(),
{
    if parents.len() == 0 {
        Seq::empty()
    } else {
        cross_with(parents[0], alts) + product(parents.drop_first(), alts)
    }
}

/// A finished item joins the open group as a new alternative; with no open
/// group it is appended to every prefix of the innermost frame.
pub open spec fn push_step(
    stack: Seq<Seq<Seq<char>>>,
    group: Option<Seq<Seq<char>>>,
    item: Seq<char>,
) -> (Seq<Seq<Seq<char>>>, Option<Seq<Seq<char>>>) {
    match group {
        Some(g) => (stack, Some(g.push(item))),
        None => {
            if stack.len() > 0 {
                (stack.update(stack.len() - 1, append_all(stack.last(), item)), group)
            } else {
                (stack, group)
            }
        },
    }
}

/// Opening a group saves the surrounding group's alternatives, if any, as a
/// new frame and starts collecting alternatives afresh.
pub open spec fn open_step(stack: Seq<Seq<Seq<char>>>, group: Option<Seq<Seq<char>>>) -> (
    Seq<Seq<Seq<char>>>,
    Option<Seq<Seq<char>>>,
) {
    match group {
        Some(g) => (stack.push(g), Some(Seq::empty())),
        None => (stack, Some(Seq::empty())),
    }
}

/// Closing a group combines its alternatives with the parent frame: at top
/// level the full cartesian product replaces the frame; inside a group the
/// parent's last alternative is expanded by every closed alternative. A close
/// with no open group is a syntax error.
pub open spec fn close_step(stack: Seq<Seq<Seq<char>>>, group: Option<Seq<Seq<char>>>) -> Option<
    (Seq<Seq<Seq<char>>>, Option<Seq<Seq<char>>>),
> {
    match group {
        None => None,
        Some(alts) => {
            if stack.len() == 0 {
                None
            } else {
                let parent = stack.last();
                let rest = stack.drop_last();
                if rest.len() == 0 {
                    Some((rest.push(product(parent, alts)), None))
                } else if parent.len() == 0 {
                    None
                } else {
                    Some((rest, Some(parent.drop_last() + cross_with(parent.last(), alts))))
                }
            }
        },
    }
}

/// One character of the pattern, applied to the machine state.
pub open spec fn exp_step(st: ExpState, c: char) -> Option<ExpState> {
    if c == '(' {
        let (stack1, group1) = push_step(st.stack, st.group, st.acc);
        let (stack2, group2) = open_step(stack1, group1);
        Some(
            ExpState {
                stack: stack2,
                group: group2,
                acc: Seq::empty(),
                just_closed: false,
            },
        )
    } else if c == ')' {
        let (stack1, group1) = push_step(st.stack, st.group, st.acc);
        match close_step(stack1, group1) {
            None => None,
            Some(p) => Some(
                ExpState { stack: p.0, group: p.1, acc: Seq::empty(), just_closed: true },
            ),
        }
    } else if c == '|' {
        if st.just_closed {
            Some(ExpState { just_closed: false, ..st })
        } else {
            let (stack1, group1) = push_step(st.stack, st.group, st.acc);
            Some(
                ExpState {
                    stack: stack1,
                    group: group1,
                    acc: Seq::empty(),
                    just_closed: false,
                },
            )
        }
    } else {
        Some(ExpState { acc: st.acc.push(c), just_closed: false, ..st })
    }
}

/// The machine's starting state: one frame holding the single empty prefix.
pub open spec fn exp_init() -> ExpState {
    ExpState {
        stack: seq![seq![Seq::<char>::empty()]],
        group: None,
        acc: Seq::empty(),
        just_closed: false,
    }
}

/// The machine run over a whole pattern, character by character.
pub open spec fn exp_run(cs: Seq<char>) -> Option<ExpState>
    decreases cs.len(),
{
    if cs.len() == 0 {
        Some(exp_init())
    } else {
        match exp_run(cs.drop_last()) {
            None => None,
            Some(st) => exp_step(st, cs.last()),
        }
    }
}

/// The set of literals a pattern denotes, in emission order, or `None` when
/// the pattern's group delimiters are unbalanced.
pub open spec fn expand_spec(cs: Seq<char>) -> Option<Seq<Seq<char>>> {
    match exp_run(cs) {
        None => None,
        Some(st) => {
            let last = if st.acc.len() > 0 {
                let (stack1, group1) = push_step(st.stack, st.group, st.acc);
                ExpState { stack: stack1, group: group1, ..st }
            } else {
                st
            };
            if last.group is Some {
                None
            } else if last.stack.len() != 1 {
                None
            } else {
                Some(last.stack.last())
            }
        },
    }
}

/// Once the machine has faulted on a prefix, the whole pattern is rejected.
proof fn lemma_run_none_extends(cs: Seq<char>, i: int)
    requires
        0 <= i <= cs.len(),
        exp_run(cs.take(i)) is None,
    ensures
        exp_run(cs) is None,
    decreases cs.len() - i,
{
    if i == cs.len() {
        assert(cs.take(i) =~= cs);
    } else {
        assert(cs.take(i + 1).drop_last() =~= cs.take(i));
        lemma_run_none_extends(cs, i + 1);
    }
}

/// Appending one more parent prefix extends the product by that prefix's row.
proof fn lemma_product_push(parents: Seq<Seq<char>>, alts: Seq<Seq<char>>, x: Seq<char>)
    ensures
        product(parents.push(x), alts) == product(parents, alts) + cross_with(x, alts),
    decreases parents.len(),
{
    if parents.len() == 0 {
        assert(parents.push(x).drop_first() =~= parents);
        assert(product(parents.push(x), alts) =~= product(parents, alts) + cross_with(x, alts));
    } else {
        assert(parents.push(x).drop_first() =~= parents.drop_first().push(x));
        lemma_product_push(parents.drop_first(), alts, x);
        assert(product(parents.push(x), alts) =~= product(parents, alts) + cross_with(x, alts));
    }
}

/// The expansion machine. Frames on the stack hold the prefixes accumulated
/// outside the currently open groups; `group` holds the alternatives of the
/// innermost open group.
pub struct Expander {
    pub stack: Vec<Vec<String>>,
    pub group: Option<Vec<String>>,
}

impl Expander {
    /// The stack of prefix frames, as sequences of characters.
    pub open spec fn stack_view(&self) -> Seq<Seq<Seq<char>>> {
        self.stack.deep_view()
    }

    /// The open group's alternatives, as sequences of characters.
    pub open spec fn group_view(&self) -> Option<Seq<Seq<char>>> {
        self.group.deep_view()
    }

    /// A machine with one frame holding the single empty prefix.
    pub fn new() -> (r: Expander)
        ensures
            r.stack_view() == exp_init().stack,
            r.group_view() == exp_init().group,
    {
        let frame: Vec<String> = vec![String::new()];
        let stack: Vec<Vec<String>> = vec![frame];
        let r = Expander { stack, group: None };
        proof {
            assert(r.stack_view() =~~= exp_init().stack);
        }
        r
    }

    /// Feeds one finished literal item to the machine.
    pub fn push(&mut self, item: String)
        ensures
            (final(self).stack_view(), final(self).group_view()) == push_step(
                old(self).stack_view(),
                old(self).group_view(),
                item@,
            ),
    {
        let taken = self.group.take();
        match taken {
            Some(mut g) => {
                g.push(item);
                self.group = Some(g);
                proof {
                    assert(self.group.deep_view().unwrap() =~~= old(
                        self,
                    ).group.deep_view().unwrap().push(item@));
                }
            },
            None => {
                if self.stack.len() > 0 {
                    let mut frame = self.stack.pop().unwrap();
                    let ghost oldframe = frame.deep_view();
                    let mut grown: Vec<String> = Vec::new();
                    let mut j: usize = 0;
                    proof {
                        assert(grown.deep_view() =~~= append_all(oldframe.take(0), item@));
                    }
                    while j < frame.len()
                        invariant
                            j <= frame.len(),
                            frame.deep_view() == oldframe,
                            grown.deep_view() == append_all(oldframe.take(j as int), item@),
                        decreases frame.len() - j,
                    {
                        let mut s = frame[j].clone();
                        s.append(item.as_str());
                        let ghost sv = s@;
                        let ghost grown0 = grown.deep_view();
                        grown.push(s);
                        proof {
                            let target = append_all(oldframe.take(j + 1 as int), item@);
                            assert(grown0 == append_all(oldframe.take(j as int), item@));
                            assert(grown0.len() == j);
                            assert(grown.deep_view().len() == j + 1);
                            assert(target.len() == j + 1);
                            assert forall|k: int| 0 <= k < j + 1 implies grown.deep_view()[k]
                                == target[k] by {
                                if k < j {
                                    assert(grown.deep_view()[k] == grown0[k]);
                                    assert(target[k] == oldframe[k] + item@);
                                } else {
                                    assert(grown.deep_view()[k] == sv);
                                    assert(target[k] == oldframe[k] + item@);
                                }
                            }
                            assert(grown.deep_view() =~= target);
                        }
                        j += 1;
                    }
                    self.stack.push(grown);
                    proof {
                        assert(grown.deep_view() =~~= append_all(oldframe, item@)) by {
                            assert(oldframe.take(oldframe.len() as int) =~= oldframe);
                        }
                        assert(self.stack_view() =~~= old(self).stack_view().update(
                            old(self).stack_view().len() - 1,
                            append_all(old(self).stack_view().last(), item@),
                        ));
                    }
                }
            },
        }
    }

    /// Opens a new group.
    pub fn open_group(&mut self)
        ensures
            (final(self).stack_view(), final(self).group_view()) == open_step(
                old(self).stack_view(),
                old(self).group_view(),
            ),
    {
        let g = self.group.take();
        match g {
            Some(g) => {
                self.stack.push(g);
                self.group = Some(Vec::new());
                proof {
                    assert(self.stack_view() =~~= old(self).stack_view().push(
                        old(self).group.deep_view().unwrap(),
                    ));
                    assert(self.group.deep_view().unwrap() =~~= Seq::<Seq<char>>::empty());
                }
            },
            None => {
                self.group = Some(Vec::new());
                proof {
                    assert(self.group.deep_view().unwrap() =~~= Seq::<Seq<char>>::empty());
                }
            },
        }
    }

    /// Closes the innermost group; reports `false` when no group is open.
    pub fn close_group(&mut self) -> (ok: bool)
        ensures
            match close_step(old(self).stack_view(), old(self).group_view()) {
                None => !ok,
                Some(p) => ok && final(self).stack_view() == p.0 && final(self).group_view()
                    == p.1,
            },
    {
        let alts = match self.group.take() {
            None => {
                return false;
            },
            Some(g) => g,
        };
        let ghost altsv = alts.deep_view();
        if self.stack.len() == 0 {
            return false;
        }
        let parent = self.stack.pop().unwrap();
        let ghost parentv = parent.deep_view();
        if self.stack.len() == 0 {
            let mut perms: Vec<String> = Vec::new();
            let mut pi: usize = 0;
            proof {
                assert(perms.deep_view() =~~= product(parentv.take(0), altsv));
            }
            while pi < parent.len()
                invariant
                    pi <= parent.len(),
                    parent.deep_view() == parentv,
                    alts.deep_view() == altsv,
                    perms.deep_view() == product(parentv.take(pi as int), altsv),
                decreases parent.len() - pi,
            {
                let mut gi: usize = 0;
                proof {
                    assert(perms.deep_view() =~~= product(parentv.take(pi as int), altsv)
                        + cross_with(parentv[pi as int], altsv).take(0));
                }
                while gi < alts.len()
                    invariant
                        pi < parent.len(),
                        gi <= alts.len(),
                        parent.deep_view() == parentv,
                        alts.deep_view() == altsv,
                        perms.deep_view() == product(parentv.take(pi as int), altsv) + cross_with(
                            parentv[pi as int],
                            altsv,
                        ).take(gi as int),
                    decreases alts.len() - gi,
                {
                    let joined = parent[pi].clone().concat(alts[gi].as_str());
                    let ghost joinedv = joined@;
                    let ghost perms0 = perms.deep_view();
                    perms.push(joined);
                    proof {
                        let base = product(parentv.take(pi as int), altsv);
                        let cw = cross_with(parentv[pi as int], altsv);
                        let target = base + cw.take(gi + 1 as int);
                        assert(perms0 == base + cw.take(gi as int));
                        assert(perms0.len() == base.len() + gi);
                        assert(perms.deep_view().len() == base.len() + gi + 1);
                        assert(target.len() == base.len() + gi + 1);
                        assert(joinedv == parentv[pi as int] + altsv[gi as int]);
                        assert forall|k: int| 0 <= k < target.len() implies perms.deep_view()[k]
                            == target[k] by {
                            if k < perms0.len() {
                                assert(perms.deep_view()[k] == perms0[k]);
                                assert(target[k] == perms0[k]);
                            } else {
                                assert(perms.deep_view()[k] == joinedv);
                                assert(target[k] == cw[gi as int]);
                                assert(cw[gi as int] == parentv[pi as int] + altsv[gi as int]);
                            }
                        }
                        assert(perms.deep_view() =~= target);
                    }
                    gi += 1;
                }
                proof {
                    assert(cross_with(parentv[pi as int], altsv).take(altsv.len() as int)
                        =~= cross_with(parentv[pi as int], altsv));
                    lemma_product_push(parentv.take(pi as int), altsv, parentv[pi as int]);
                    assert(parentv.take(pi as int).push(parentv[pi as int]) =~= parentv.take(
                        pi + 1 as int,
                    ));
                    assert(perms.deep_view() =~~= product(parentv.take(pi + 1 as int), altsv));
                }
                pi += 1;
            }
            self.stack.push(perms);
            proof {
                assert(parentv.take(parentv.len() as int) =~= parentv);
                assert(self.stack_view() =~~= old(self).stack_view().drop_last().push(
                    product(parentv, altsv),
                ));
            }
            true
        } else {
            if parent.len() == 0 {
                return false;
            }
            let mut grown = parent;
            let pl = grown.pop().unwrap();
            let ghost restv = parentv.drop_last();
            let mut gi: usize = 0;
            proof {
                assert(grown.deep_view() =~~= restv + cross_with(parentv.last(), altsv).take(0));
            }
            while gi < alts.len()
                invariant
                    gi <= alts.len(),
                    alts.deep_view() == altsv,
                    pl@ == parentv.last(),
                    parentv.len() > 0,
                    grown.deep_view() == restv + cross_with(parentv.last(), altsv).take(gi as int),
                decreases alts.len() - gi,
            {
                let joined = pl.clone().concat(alts[gi].as_str());
                let ghost joinedv = joined@;
                let ghost grown0 = grown.deep_view();
                grown.push(joined);
                proof {
                    let cw = cross_with(parentv.last(), altsv);
                    let target = restv + cw.take(gi + 1 as int);
                    assert(grown0 == restv + cw.take(gi as int));
                    assert(grown0.len() == restv.len() + gi);
                    assert(grown.deep_view().len() == restv.len() + gi + 1);
                    assert(target.len() == restv.len() + gi + 1);
                    assert(joinedv == parentv.last() + altsv[gi as int]);
                    assert forall|k: int| 0 <= k < target.len() implies grown.deep_view()[k]
                        == target[k] by {
                        if k < grown0.len() {
                            assert(grown.deep_view()[k] == grown0[k]);
                            assert(target[k] == grown0[k]);
                        } else {
                            assert(grown.deep_view()[k] == joinedv);
                            assert(target[k] == cw[gi as int]);
                            assert(cw[gi as int] == parentv.last() + altsv[gi as int]);
                        }
                    }
                    assert(grown.deep_view() =~= target);
                }
                gi += 1;
            }
            self.group = Some(grown);
            proof {
                assert(cross_with(parentv.last(), altsv).take(altsv.len() as int) =~= cross_with(
                    parentv.last(),
                    altsv,
                ));
                assert(self.stack_view() =~~= old(self).stack_view().drop_last());
                assert(self.group.deep_view().unwrap() =~~= restv + cross_with(
                    parentv.last(),
                    altsv,
                ));
            }
            true
        }
    }
}

/// Expands a pattern of literal text and `(a|b|...)` alternation groups,
/// possibly nested, into every literal string it denotes, in emission order.
/// Unbalanced group delimiters are reported as a syntax error.
pub fn expand_string(s: &str) -> (r: Result<Vec<String>, PatternSyntaxError>)
    ensures
        match r {
            Ok(v) => expand_spec(s@) == Some(v.deep_view()),
            Err(_) => expand_spec(s@) is None,
        },
{
    let cs = chars_of(s);
    let mut e = Expander::new();
    let mut acc = String::new();
    let mut just_closed = false;
    let mut i: usize = 0;
    proof {
        assert(s@.take(0) =~= Seq::<char>::empty());
    }
    while i < cs.len()
        invariant
            cs@ == s@,
            i <= cs.len(),
            exp_run(s@.take(i as int)) == Some(
                ExpState {
                    stack: e.stack_view(),
                    group: e.group_view(),
                    acc: acc@,
                    just_closed: just_closed,
                },
            ),
        decreases cs.len() - i,
    {
        let c = cs[i];
        proof {
            assert(s@.take(i + 1 as int).drop_last() =~= s@.take(i as int));
            assert(s@.take(i + 1 as int).last() == c);
        }
        if c == '(' {
            e.push(acc);
            acc = String::new();
            e.open_group();
            just_closed = false;
        } else if c == ')' {
            e.push(acc);
            acc = String::new();
            just_closed = true;
            let ok = e.close_group();
            if !ok {
                proof {
                    lemma_run_none_extends(s@, i + 1 as int);
                }
                return Err(PatternSyntaxError);
            }
        } else if c == '|' {
            if !just_closed {
                e.push(acc);
                acc = String::new();
            } else {
                just_closed = false;
            }
        } else {
            acc.push(c);
            just_closed = false;
        }
        i += 1;
    }
    proof {
        assert(s@.take(cs.len() as int) =~= s@);
    }
    if !acc.as_str().is_empty() {
        e.push(acc);
    }
    if e.group.is_some() {
        Err(PatternSyntaxError)
    } else if e.stack.len() != 1 {
        Err(PatternSyntaxError)
    } else {
        let frame = e.stack.pop().unwrap();
        Ok(frame)
    }
}

} // verus!
