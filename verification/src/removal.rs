//! Removing a whole sub-proof: everything inside it — premises,
//! justification steps and nested sub-proofs — is emptied from its slot for
//! good, and the one line carrying it disappears from its parent. The root
//! is never removable, nor is the only line of its parent.

use vstd::prelude::*;
use crate::document::{
    Proof, prem_live, prem_at, just_live, just_at, sub_live, sub_at,
    sub_entries_ok, prem_parent_ok, just_parent_ok, sub_parent_ok,
    line_ok, distinct_seq, wf, in_subtree,
    lemma_in_subtree_le, lemma_in_subtree_step, lemma_in_subtree_via_child,
};
use crate::refs::{PremRef, JustRef, SubRef, Line};
use crate::seq_facts::{pos_of, lemma_pos_of, lemma_push_contains, lemma_remove_facts};

verus! {

/// A premise owned by a sub-proof within the subtree of `s`.
pub open spec fn prem_in_subtree(p: Proof, pr: PremRef, s: usize) -> bool {
    prem_live(p, pr) && in_subtree(p, prem_at(p, pr).parent, s)
}

/// A justification owned by a sub-proof within the subtree of `s`.
pub open spec fn just_in_subtree(p: Proof, j: JustRef, s: usize) -> bool {
    just_live(p, j) && in_subtree(p, just_at(p, j).parent, s)
}

/// A sub-proof within the subtree of `s`, `s` itself included.
pub open spec fn sub_in_subtree(p: Proof, c: SubRef, s: usize) -> bool {
    sub_live(p, c) && in_subtree(p, c.0, s)
}

/// Whether line `l` is a sub-proof line whose subtree holds sub-proof `t`.
pub open spec fn line_covers(p: Proof, l: Line, t: usize) -> bool {
    match l {
        Line::Sub(c) => in_subtree(p, t, c.0),
        Line::Direct(_) => false,
    }
}

/// Whether one of the first `upto` lines is a sub-proof whose subtree holds
/// sub-proof `t`.
pub open spec fn subtree_hit(p: Proof, lines: Seq<Line>, upto: int, t: usize) -> bool {
    exists|m: int| 0 <= m < upto && line_covers(p, #[trigger] lines[m], t)
}

/// Whether one of the first `upto` lines is the direct line of `j`.
pub open spec fn direct_hit(lines: Seq<Line>, upto: int, j: JustRef) -> bool {
    exists|m: int| 0 <= m < upto && (#[trigger] lines[m]) == Line::Direct(j)
}

/// Extending the scanned prefix by one line adds exactly that direct line,
/// if it is one.
proof fn lemma_direct_step(lines: Seq<Line>, k: int)
    requires
        0 <= k < lines.len(),
    ensures
        forall|j: JustRef| #[trigger] direct_hit(lines, k + 1, j) <==> (direct_hit(lines, k, j)
            || lines[k] == Line::Direct(j)),
{
    assert forall|j: JustRef| #[trigger] direct_hit(lines, k + 1, j) implies (direct_hit(
        lines,
        k,
        j,
    ) || lines[k] == Line::Direct(j)) by {
        let m = choose|m: int| 0 <= m < k + 1 && (#[trigger] lines[m]) == Line::Direct(j);
        if m < k {
            assert(direct_hit(lines, k, j));
        }
    }
    assert forall|j: JustRef| (direct_hit(lines, k, j) || lines[k] == Line::Direct(j))
        implies #[trigger] direct_hit(lines, k + 1, j) by {
        if direct_hit(lines, k, j) {
            let m = choose|m: int| 0 <= m < k && (#[trigger] lines[m]) == Line::Direct(j);
            assert(0 <= m < k + 1 && lines[m] == Line::Direct(j));
        } else {
            assert(0 <= k < k + 1 && lines[k] == Line::Direct(j));
        }
    }
}

/// Extending the scanned prefix by one line adds exactly that line's
/// subtree, if it is a sub-proof line.
proof fn lemma_hit_step(p: Proof, lines: Seq<Line>, k: int)
    requires
        0 <= k < lines.len(),
    ensures
        forall|t: usize| #[trigger] subtree_hit(p, lines, k + 1, t) <==> (subtree_hit(
            p,
            lines,
            k,
            t,
        ) || line_covers(p, lines[k], t)),
{
    assert forall|t: usize| #[trigger] subtree_hit(p, lines, k + 1, t) implies (subtree_hit(
        p,
        lines,
        k,
        t,
    ) || line_covers(p, lines[k], t)) by {
        let m = choose|m: int| 0 <= m < k + 1 && line_covers(p, #[trigger] lines[m], t);
        if m < k {
            assert(subtree_hit(p, lines, k, t));
        }
    }
    assert forall|t: usize| (subtree_hit(p, lines, k, t) || line_covers(p, lines[k], t))
        implies #[trigger] subtree_hit(p, lines, k + 1, t) by {
        if subtree_hit(p, lines, k, t) {
            let m = choose|m: int| 0 <= m < k && line_covers(p, #[trigger] lines[m], t);
            assert(0 <= m < k + 1 && line_covers(p, lines[m], t));
        } else {
            assert(0 <= k < k + 1 && line_covers(p, lines[k], t));
        }
    }
}

/// Membership in the subtree of `s`, other than `s` itself, is membership in
/// the subtree of one of `s`'s sub-proof lines.
proof fn lemma_subtree_via_lines(p: Proof, s: usize)
    requires
        wf(p),
        sub_live(p, SubRef(s)),
    ensures
        forall|t: usize| #[trigger] in_subtree(p, t, s) <==> (t == s || subtree_hit(
            p,
            sub_at(p, SubRef(s)).lines@,
            sub_at(p, SubRef(s)).lines@.len() as int,
            t,
        )),
{
    let lines = sub_at(p, SubRef(s)).lines@;
    assert(p.subs@[s as int] is Some);
    assert(sub_entries_ok(p, s));
    assert forall|t: usize| #[trigger] in_subtree(p, t, s) implies (t == s || subtree_hit(
        p,
        lines,
        lines.len() as int,
        t,
    )) by {
        if t != s {
            lemma_in_subtree_via_child(p, t, s);
            let c = choose|c: usize|
                sub_live(p, SubRef(c)) && sub_at(p, SubRef(c)).parent == Some(SubRef(s))
                    && #[trigger] in_subtree(p, t, c);
            assert(sub_parent_ok(p, c));
            assert(c != 0) by {
                if c == 0 {
                    assert(sub_at(p, SubRef(0)).parent is None);
                }
            }
            assert(lines.contains(Line::Sub(SubRef(c))));
            let m = choose|m: int| 0 <= m < lines.len() && lines[m] == Line::Sub(SubRef(c));
            assert(line_covers(p, lines[m], t));
        }
    }
    assert forall|t: usize| (t == s || subtree_hit(p, lines, lines.len() as int, t))
        implies #[trigger] in_subtree(p, t, s) by {
        if t == s {
        } else {
            let m = choose|m: int| 0 <= m < lines.len() && line_covers(p, #[trigger] lines[m], t);
            assert(line_ok(p, s, lines[m]));
            match lines[m] {
                Line::Sub(c) => {
                    lemma_in_subtree_step(p, t, c.0, s);
                },
                Line::Direct(_) => {},
            }
        }
    }
}

impl Proof {
    /// Gathers every premise, justification and sub-proof within the subtree
    /// of the live sub-proof `s`, appending to the given vectors.
    fn collect_subtree(
        &self,
        s: usize,
        dp: &mut Vec<PremRef>,
        dj: &mut Vec<JustRef>,
        ds: &mut Vec<SubRef>,
    )
        requires
            wf(*self),
            sub_live(*self, SubRef(s)),
        ensures
            forall|pr: PremRef| #[trigger] final(dp)@.contains(pr) <==> (old(dp)@.contains(pr)
                || prem_in_subtree(*self, pr, s)),
            forall|j: JustRef| #[trigger] final(dj)@.contains(j) <==> (old(dj)@.contains(j)
                || just_in_subtree(*self, j, s)),
            forall|c: SubRef| #[trigger] final(ds)@.contains(c) <==> (old(ds)@.contains(c)
                || sub_in_subtree(*self, c, s)),
        decreases self.subs@.len() - s,
    {
        let ghost p = *self;
        let ghost dp0 = dp@;
        let ghost dj0 = dj@;
        let ghost ds0 = ds@;
        proof {
            assert(sub_entries_ok(p, s));
            lemma_subtree_via_lines(p, s);
        }
        let node = self.subs[s].as_ref().unwrap();
        ds.push(SubRef(s));
        proof {
            lemma_push_contains(ds0, SubRef(s));
        }
        let ghost ds1 = ds@;

        let mut i: usize = 0;
        while i < node.premises.len()
            invariant
                wf(p),
                p == *self,
                sub_live(p, SubRef(s)),
                *node == sub_at(p, SubRef(s)),
                i <= node.premises@.len(),
                forall|pr: PremRef| #[trigger] dp@.contains(pr) <==> (dp0.contains(pr)
                    || exists|m: int| 0 <= m < i && #[trigger] node.premises@[m] == pr),
            decreases node.premises@.len() - i,
        {
            let ghost before = dp@;
            dp.push(node.premises[i]);
            proof {
                lemma_push_contains(before, node.premises@[i as int]);
                assert forall|pr: PremRef| #[trigger] dp@.contains(pr) implies (dp0.contains(pr)
                    || exists|m: int| 0 <= m < i + 1 && #[trigger] node.premises@[m] == pr) by {
                    if pr == node.premises@[i as int] {
                        assert(node.premises@[i as int] == pr);
                    }
                }
                assert forall|pr: PremRef| (dp0.contains(pr) || exists|m: int|
                    0 <= m < i + 1 && #[trigger] node.premises@[m] == pr)
                    implies #[trigger] dp@.contains(pr) by {
                    if !dp0.contains(pr) {
                        let m = choose|m: int| 0 <= m < i + 1 && #[trigger] node.premises@[m]
                            == pr;
                        if m < i {
                            assert(before.contains(pr));
                        }
                    }
                }
            }
            i += 1;
        }
        let ghost dp1 = dp@;
        proof {
            assert forall|pr: PremRef| #[trigger] dp1.contains(pr) <==> (dp0.contains(pr) || (
            prem_live(p, pr) && prem_at(p, pr).parent == s)) by {
                if dp1.contains(pr) && !dp0.contains(pr) {
                    let m = choose|m: int| 0 <= m < node.premises@.len()
                        && #[trigger] node.premises@[m] == pr;
                    assert(prem_live(p, pr) && prem_at(p, pr).parent == s);
                }
                if prem_live(p, pr) && prem_at(p, pr).parent == s {
                    assert(prem_parent_ok(p, pr.0));
                    assert(node.premises@.contains(pr));
                    let m = choose|m: int| 0 <= m < node.premises@.len() && node.premises@[m]
                        == pr;
                    assert(0 <= m < node.premises@.len() && node.premises@[m] == pr);
                }
            }
        }

        let mut k: usize = 0;
        while k < node.lines.len()
            invariant
                wf(p),
                p == *self,
                sub_live(p, SubRef(s)),
                *node == sub_at(p, SubRef(s)),
                k <= node.lines@.len(),
                forall|pr: PremRef| #[trigger] dp@.contains(pr) <==> (dp1.contains(pr) || (
                prem_live(p, pr) && subtree_hit(
                    p,
                    node.lines@,
                    k as int,
                    prem_at(p, pr).parent,
                ))),
                forall|j: JustRef| #[trigger] dj@.contains(j) <==> (dj0.contains(j) || direct_hit(
                    node.lines@,
                    k as int,
                    j,
                ) || (just_live(p, j) && subtree_hit(
                    p,
                    node.lines@,
                    k as int,
                    just_at(p, j).parent,
                ))),
                forall|c: SubRef| #[trigger] ds@.contains(c) <==> (ds1.contains(c) || (sub_live(
                    p,
                    c,
                ) && subtree_hit(p, node.lines@, k as int, c.0))),
            decreases node.lines@.len() - k,
        {
            proof {
                assert(sub_entries_ok(p, s));
                assert(line_ok(p, s, node.lines@[k as int]));
                lemma_hit_step(p, node.lines@, k as int);
                lemma_direct_step(node.lines@, k as int);
            }
            match &node.lines[k] {
                Line::Direct(j) => {
                    let ghost before = dj@;
                    dj.push(*j);
                    proof {
                        lemma_push_contains(before, *j);
                    }
                },
                Line::Sub(c) => {
                    proof {
                        assert(c.0 > s);
                    }
                    self.collect_subtree(c.0, dp, dj, ds);
                },
            }
            k += 1;
        }
        proof {
            assert(node.lines@.len() as int == sub_at(p, SubRef(s)).lines@.len() as int);
            assert forall|pr: PremRef| #[trigger] dp@.contains(pr) <==> (dp0.contains(pr)
                || prem_in_subtree(p, pr, s)) by {
                if prem_in_subtree(p, pr, s) {
                    assert(prem_parent_ok(p, pr.0));
                    assert(in_subtree(p, prem_at(p, pr).parent, s));
                }
            }
            assert forall|j: JustRef| #[trigger] dj@.contains(j) <==> (dj0.contains(j)
                || just_in_subtree(p, j, s)) by {
                if dj@.contains(j) && !dj0.contains(j) {
                    if direct_hit(node.lines@, node.lines@.len() as int, j) {
                        let m = choose|m: int| 0 <= m < node.lines@.len()
                            && (#[trigger] node.lines@[m]) == Line::Direct(j);
                        assert(line_ok(p, s, node.lines@[m]));
                        assert(in_subtree(p, s, s));
                    }
                }
                if just_in_subtree(p, j, s) {
                    assert(just_parent_ok(p, j.0));
                    if just_at(p, j).parent == s {
                        assert(sub_at(p, SubRef(s)).lines@.contains(Line::Direct(j)));
                        let m = choose|m: int| 0 <= m < node.lines@.len() && node.lines@[m]
                            == Line::Direct(j);
                        assert(0 <= m < node.lines@.len()
                            && (node.lines@[m]) == Line::Direct(j));
                        assert(direct_hit(node.lines@, node.lines@.len() as int, j));
                    }
                }
            }
            assert forall|c: SubRef| #[trigger] ds@.contains(c) <==> (ds0.contains(c)
                || sub_in_subtree(p, c, s)) by {
                if sub_in_subtree(p, c, s) && c.0 == s {
                    assert(c == SubRef(s));
                    assert(ds1.contains(c));
                }
            }
        }
    }
}

/// The gathered vectors hold exactly the subtree of `x`.
pub open spec fn collected_ok(
    p0: Proof,
    x: SubRef,
    dpv: Seq<PremRef>,
    djv: Seq<JustRef>,
    dsv: Seq<SubRef>,
) -> bool {
    &&& forall|pr: PremRef| #[trigger] dpv.contains(pr) <==> prem_in_subtree(p0, pr, x.0)
    &&& forall|j: JustRef| #[trigger] djv.contains(j) <==> just_in_subtree(p0, j, x.0)
    &&& forall|c: SubRef| #[trigger] dsv.contains(c) <==> sub_in_subtree(p0, c, x.0)
}

/// Exactly the premise slots named by `dpv` have been emptied.
pub open spec fn prems_killed(p0: Proof, p1: Proof, dpv: Seq<PremRef>) -> bool {
    &&& p1.prems@.len() == p0.prems@.len()
    &&& forall|t: usize| t < p0.prems@.len() ==> #[trigger] p1.prems@[t as int] == (
        if dpv.contains(PremRef(t)) {
            Option::<crate::document::Premise>::None
        } else {
            p0.prems@[t as int]
        })
}

/// Exactly the justification slots named by `djv` have been emptied.
pub open spec fn justs_killed(p0: Proof, p1: Proof, djv: Seq<JustRef>) -> bool {
    &&& p1.justs@.len() == p0.justs@.len()
    &&& forall|t: usize| t < p0.justs@.len() ==> #[trigger] p1.justs@[t as int] == (
        if djv.contains(JustRef(t)) {
            Option::<crate::document::JustEntry>::None
        } else {
            p0.justs@[t as int]
        })
}

/// Exactly the sub-proof slots named by `dsv` have been emptied.
pub open spec fn subs_killed(p0: Proof, p1: Proof, dsv: Seq<SubRef>) -> bool {
    &&& p1.subs@.len() == p0.subs@.len()
    &&& forall|t: usize| t < p0.subs@.len() ==> #[trigger] p1.subs@[t as int] == (
        if dsv.contains(SubRef(t)) {
            Option::<crate::document::SubproofNode>::None
        } else {
            p0.subs@[t as int]
        })
}

/// Whether removing the sub-proof `x` is allowed: it must resolve, it must
/// not be the root, and its parent must keep at least one line.
pub open spec fn may_remove_subproof_spec(p: Proof, x: SubRef) -> bool {
    sub_live(p, x) && x.0 != 0 && sub_at(
        p,
        sub_at(p, x).parent.unwrap(),
    ).lines@.len() > 1
}

/// `p1` is `p0` with the sub-proof `x` and everything inside it removed:
/// exactly the subtree's slots are emptied for good, its parent's line for
/// `x` is dropped, and nothing else changes.
pub open spec fn subproof_removed(p0: Proof, p1: Proof, x: SubRef) -> bool {
    let ps = sub_at(p0, x).parent.unwrap().0;
    &&& p1.prems@.len() == p0.prems@.len()
    &&& p1.justs@.len() == p0.justs@.len()
    &&& p1.subs@.len() == p0.subs@.len()
    &&& forall|pr: PremRef| pr.0 < p0.prems@.len() ==> (#[trigger] prem_live(p1, pr) <==> (
    prem_live(p0, pr) && !in_subtree(p0, prem_at(p0, pr).parent, x.0)))
    &&& forall|j: JustRef| j.0 < p0.justs@.len() ==> (#[trigger] just_live(p1, j) <==> (just_live(
        p0,
        j,
    ) && !in_subtree(p0, just_at(p0, j).parent, x.0)))
    &&& forall|c: SubRef| c.0 < p0.subs@.len() ==> (#[trigger] sub_live(p1, c) <==> (sub_live(
        p0,
        c,
    ) && !in_subtree(p0, c.0, x.0)))
    &&& forall|pr: PremRef| #[trigger] prem_live(p1, pr) ==> p1.prems@[pr.0 as int]
        == p0.prems@[pr.0 as int]
    &&& forall|j: JustRef| #[trigger] just_live(p1, j) ==> p1.justs@[j.0 as int]
        == p0.justs@[j.0 as int]
    &&& forall|c: SubRef| #[trigger] sub_live(p1, c) && c.0 != ps ==> p1.subs@[c.0 as int]
        == p0.subs@[c.0 as int]
    &&& sub_live(p1, SubRef(ps))
    &&& sub_at(p1, SubRef(ps)).lines@ == sub_at(p0, SubRef(ps)).lines@.remove(
        pos_of(sub_at(p0, SubRef(ps)).lines@, Line::Sub(x)),
    )
    &&& sub_at(p1, SubRef(ps)).premises@ == sub_at(p0, SubRef(ps)).premises@
    &&& sub_at(p1, SubRef(ps)).parent == sub_at(p0, SubRef(ps)).parent
}

proof fn lemma_wf_subproof_removed(p0: Proof, p1: Proof, x: SubRef)
    requires
        wf(p0),
        sub_live(p0, x),
        x.0 != 0,
        sub_at(p0, x).parent is Some,
        subproof_removed(p0, p1, x),
    ensures
        wf(p1),
{
    let ps = sub_at(p0, x).parent.unwrap().0;
    assert(sub_parent_ok(p0, x.0));
    assert(p0.subs@[ps as int] is Some);
    assert(sub_entries_ok(p0, ps));
    let l0 = sub_at(p0, SubRef(ps)).lines@;
    let kpos = pos_of(l0, Line::Sub(x));
    assert(l0.contains(Line::Sub(x)));
    let w = choose|w: int| 0 <= w < l0.len() && l0[w] == Line::Sub(x);
    lemma_pos_of(l0, Line::Sub(x), w);
    assert(0 <= kpos < l0.len() && l0[kpos] == Line::Sub(x));
    l0.remove_ensures(kpos);
    lemma_remove_facts(l0, kpos);
    assert(!in_subtree(p0, ps, x.0)) by {
        if in_subtree(p0, ps, x.0) {
            lemma_in_subtree_le(p0, ps, x.0);
        }
    }

    assert(p1.subs@[0] is Some) by {
        assert(!in_subtree(p0, 0, x.0)) by {
            if in_subtree(p0, 0, x.0) {
                lemma_in_subtree_le(p0, 0, x.0);
            }
        }
        assert(sub_live(p1, SubRef(0)));
    }

    assert forall|i: usize| i < p1.subs@.len() && (#[trigger] p1.subs@[i as int]) is Some
        implies sub_entries_ok(p1, i) by {
        assert(sub_live(p1, SubRef(i)));
        assert(sub_live(p0, SubRef(i)) && !in_subtree(p0, i, x.0));
        assert(sub_entries_ok(p0, i));
        let n0 = sub_at(p0, SubRef(i));
        let n1 = sub_at(p1, SubRef(i));
        if i != ps {
            assert(p1.subs@[i as int] == p0.subs@[i as int]);
            assert(n1 == n0);
        }
        assert(n1.premises@ == n0.premises@);
        assert forall|m: int| 0 <= m < n1.premises@.len()
            implies prem_live(p1, #[trigger] n1.premises@[m])
                && prem_at(p1, n1.premises@[m]).parent == i by {
            let e = n1.premises@[m];
            assert(prem_live(p0, e) && prem_at(p0, e).parent == i);
            assert(prem_live(p1, e));
            assert(p1.prems@[e.0 as int] == p0.prems@[e.0 as int]);
        }
        assert(distinct_seq(n1.premises@));
        assert forall|m: int| 0 <= m < n1.lines@.len()
            implies line_ok(p1, i, #[trigger] n1.lines@[m]) by {
            let l = n1.lines@[m];
            assert(n0.lines@.contains(l) && l != Line::Sub(x)) by {
                if i == ps {
                    assert(n1.lines@ == l0.remove(kpos));
                } else {
                    assert(n0.lines@[m] == l);
                    if l == Line::Sub(x) {
                        assert(line_ok(p0, i, l));
                        assert(sub_at(p0, x).parent == Some(SubRef(i)));
                        assert(i == ps);
                        assert(false);
                    }
                }
            }
            let m0 = choose|m0: int| 0 <= m0 < n0.lines@.len() && n0.lines@[m0] == l;
            assert(line_ok(p0, i, l));
            match l {
                Line::Direct(j) => {
                    assert(just_live(p0, j) && just_at(p0, j).parent == i);
                    assert(just_live(p1, j));
                    assert(p1.justs@[j.0 as int] == p0.justs@[j.0 as int]);
                },
                Line::Sub(c) => {
                    assert(c.0 != x.0);
                    assert(!in_subtree(p0, c.0, x.0)) by {
                        assert(sub_live(p0, c));
                        assert(sub_at(p0, c).parent == Some(SubRef(i)));
                    }
                    assert(sub_live(p1, c));
                    assert(sub_at(p1, c).parent == sub_at(p0, c).parent) by {
                        if c.0 != ps {
                            assert(p1.subs@[c.0 as int] == p0.subs@[c.0 as int]);
                        }
                    }
                },
            }
        }
        assert(distinct_seq(n1.lines@));
    }

    assert forall|t: usize| t < p1.prems@.len() && (#[trigger] p1.prems@[t as int]) is Some
        implies prem_parent_ok(p1, t) by {
        let pr = PremRef(t);
        assert(prem_live(p1, pr));
        assert(prem_live(p0, pr) && !in_subtree(p0, prem_at(p0, pr).parent, x.0));
        assert(p1.prems@[t as int] == p0.prems@[t as int]);
        assert(prem_parent_ok(p0, t));
        let sp = p0.prems@[t as int].unwrap().parent;
        assert(sub_live(p1, SubRef(sp)));
        if sp == ps {
            assert(sub_at(p1, SubRef(sp)).premises@ == sub_at(p0, SubRef(sp)).premises@);
        } else {
            assert(p1.subs@[sp as int] == p0.subs@[sp as int]);
        }
    }

    assert forall|t: usize| t < p1.justs@.len() && (#[trigger] p1.justs@[t as int]) is Some
        implies just_parent_ok(p1, t) by {
        let j = JustRef(t);
        assert(just_live(p1, j));
        assert(just_live(p0, j) && !in_subtree(p0, just_at(p0, j).parent, x.0));
        assert(p1.justs@[t as int] == p0.justs@[t as int]);
        assert(just_parent_ok(p0, t));
        let sp = just_at(p0, j).parent;
        assert(sub_live(p1, SubRef(sp)));
        if sp == ps {
            assert(l0.contains(Line::Direct(j)));
            assert(Line::Direct(j) != Line::Sub(x));
            assert(sub_at(p1, SubRef(sp)).lines@.contains(Line::Direct(j)));
        } else {
            assert(p1.subs@[sp as int] == p0.subs@[sp as int]);
        }
    }

    assert forall|t: usize| t < p1.subs@.len() && (#[trigger] p1.subs@[t as int]) is Some
        implies sub_parent_ok(p1, t) by {
        let c = SubRef(t);
        assert(sub_live(p1, c));
        assert(sub_live(p0, c) && !in_subtree(p0, t, x.0));
        assert(sub_parent_ok(p0, t));
        assert(sub_at(p1, c).parent == sub_at(p0, c).parent) by {
            if t != ps {
                assert(p1.subs@[t as int] == p0.subs@[t as int]);
            }
        }
        if t != 0 {
            let pc = sub_at(p0, c).parent.unwrap();
            assert(t != x.0);
            assert(!in_subtree(p0, pc.0, x.0));
            assert(sub_live(p1, pc));
            if pc.0 == ps {
                assert(l0.contains(Line::Sub(c)));
                assert(Line::Sub(c) != Line::Sub(x));
                assert(sub_at(p1, pc).lines@.contains(Line::Sub(c)));
            } else {
                assert(p1.subs@[pc.0 as int] == p0.subs@[pc.0 as int]);
            }
        }
    }
}

impl Proof {
    /// Removes the sub-proof `x` and everything inside it. Refused — leaving
    /// the document exactly as it was — when `x` is stale, names the root,
    /// or is the only line of its parent.
    pub fn remove_subproof(&mut self, x: &SubRef) -> (res: bool)
        requires
            wf(*old(self)),
        ensures
            wf(*final(self)),
            res == may_remove_subproof_spec(*old(self), *x),
            !res ==> *final(self) == *old(self),
            res ==> subproof_removed(*old(self), *final(self), *x),
            res ==> !sub_live(*final(self), *x),
    {
        if x.0 == 0 || x.0 >= self.subs.len() {
            return false;
        }
        let ps = match &self.subs[x.0] {
            Some(n) => match n.parent {
                Some(pp) => pp.0,
                None => {
                    proof {
                        assert(sub_parent_ok(*self, x.0));
                        assert(false);
                    }
                    return false;
                },
            },
            None => {
                return false;
            },
        };
        proof {
            assert(sub_parent_ok(*self, x.0));
            assert(sub_entries_ok(*self, ps));
        }
        if self.subs[ps].as_ref().unwrap().lines.len() <= 1 {
            return false;
        }
        let kpos = match self.line_pos(ps, Line::Sub(*x)) {
            Some(k) => k,
            None => {
                proof {
                    assert(false);
                }
                return false;
            },
        };
        proof {
            lemma_pos_of(sub_at(*self, SubRef(ps)).lines@, Line::Sub(*x), kpos as int);
        }

        let mut dp: Vec<PremRef> = Vec::new();
        let mut dj: Vec<JustRef> = Vec::new();
        let mut ds: Vec<SubRef> = Vec::new();
        self.collect_subtree(x.0, &mut dp, &mut dj, &mut ds);
        proof {
            assert(collected_ok(*old(self), *x, dp@, dj@, ds@));
            assert forall|m: int| 0 <= m < dp@.len()
                implies (#[trigger] dp@[m]).0 < old(self).prems@.len() by {
                assert(dp@.contains(dp@[m]));
                assert(prem_in_subtree(*old(self), dp@[m], x.0));
            }
            assert forall|m: int| 0 <= m < dj@.len()
                implies (#[trigger] dj@[m]).0 < old(self).justs@.len() by {
                assert(dj@.contains(dj@[m]));
                assert(just_in_subtree(*old(self), dj@[m], x.0));
            }
            assert forall|m: int| 0 <= m < ds@.len()
                implies (#[trigger] ds@[m]).0 < old(self).subs@.len() by {
                assert(ds@.contains(ds@[m]));
                assert(sub_in_subtree(*old(self), ds@[m], x.0));
            }
        }

        let mut i: usize = 0;
        while i < dp.len()
            invariant
                wf(*old(self)),
                sub_live(*old(self), *x),
                collected_ok(*old(self), *x, dp@, dj@, ds@),
                forall|m: int| 0 <= m < dp@.len() ==> (#[trigger] dp@[m]).0 < old(
                    self,
                ).prems@.len(),
                i <= dp@.len(),
                self.justs@ == old(self).justs@,
                self.subs@ == old(self).subs@,
                self.prems@.len() == old(self).prems@.len(),
                forall|t: usize| t < old(self).prems@.len() && !dp@.contains(
                    PremRef(t),
                ) ==> #[trigger] self.prems@[t as int] == old(self).prems@[t as int],
                forall|m: int| 0 <= m < i ==> self.prems@[(#[trigger] dp@[m]).0 as int] is None,
            decreases dp@.len() - i,
        {
            proof {
                assert(dp@.contains(dp@[i as int]));
                assert(prem_in_subtree(*old(self), dp@[i as int], x.0));
            }
            let t = dp[i].0;
            self.prems.set(t, None);
            i += 1;
        }
        proof {
            assert(prems_killed(*old(self), *self, dp@)) by {
                assert forall|t: usize| t < old(self).prems@.len()
                    implies #[trigger] self.prems@[t as int] == (
                    if dp@.contains(PremRef(t)) {
                        Option::<crate::document::Premise>::None
                    } else {
                        old(self).prems@[t as int]
                    }) by {
                    if dp@.contains(PremRef(t)) {
                        let m = choose|m: int| 0 <= m < dp@.len() && dp@[m] == PremRef(t);
                        assert(self.prems@[(dp@[m]).0 as int] is None);
                        assert((dp@[m]).0 == t);
                    }
                }
            }
        }

        let mut i2: usize = 0;
        while i2 < dj.len()
            invariant
                wf(*old(self)),
                sub_live(*old(self), *x),
                collected_ok(*old(self), *x, dp@, dj@, ds@),
                prems_killed(*old(self), *self, dp@),
                forall|m: int| 0 <= m < dj@.len() ==> (#[trigger] dj@[m]).0 < old(
                    self,
                ).justs@.len(),
                i2 <= dj@.len(),
                self.subs@ == old(self).subs@,
                self.justs@.len() == old(self).justs@.len(),
                forall|t: usize| t < old(self).justs@.len() && !dj@.contains(
                    JustRef(t),
                ) ==> #[trigger] self.justs@[t as int] == old(self).justs@[t as int],
                forall|m: int| 0 <= m < i2 ==> self.justs@[(#[trigger] dj@[m]).0 as int] is None,
            decreases dj@.len() - i2,
        {
            proof {
                assert(dj@.contains(dj@[i2 as int]));
                assert(just_in_subtree(*old(self), dj@[i2 as int], x.0));
            }
            let t = dj[i2].0;
            self.justs.set(t, None);
            i2 += 1;
        }
        proof {
            assert(justs_killed(*old(self), *self, dj@)) by {
                assert forall|t: usize| t < old(self).justs@.len()
                    implies #[trigger] self.justs@[t as int] == (
                    if dj@.contains(JustRef(t)) {
                        Option::<crate::document::JustEntry>::None
                    } else {
                        old(self).justs@[t as int]
                    }) by {
                    if dj@.contains(JustRef(t)) {
                        let m = choose|m: int| 0 <= m < dj@.len() && dj@[m] == JustRef(t);
                        assert(self.justs@[(dj@[m]).0 as int] is None);
                        assert((dj@[m]).0 == t);
                    }
                }
            }
        }

        let mut i3: usize = 0;
        while i3 < ds.len()
            invariant
                wf(*old(self)),
                sub_live(*old(self), *x),
                collected_ok(*old(self), *x, dp@, dj@, ds@),
                prems_killed(*old(self), *self, dp@),
                justs_killed(*old(self), *self, dj@),
                forall|m: int| 0 <= m < ds@.len() ==> (#[trigger] ds@[m]).0 < old(
                    self,
                ).subs@.len(),
                i3 <= ds@.len(),
                self.subs@.len() == old(self).subs@.len(),
                forall|t: usize| t < old(self).subs@.len() && !ds@.contains(
                    SubRef(t),
                ) ==> #[trigger] self.subs@[t as int] == old(self).subs@[t as int],
                forall|m: int| 0 <= m < i3 ==> self.subs@[(#[trigger] ds@[m]).0 as int] is None,
            decreases ds@.len() - i3,
        {
            proof {
                assert(ds@.contains(ds@[i3 as int]));
                assert(sub_in_subtree(*old(self), ds@[i3 as int], x.0));
            }
            let t = ds[i3].0;
            self.subs.set(t, None);
            i3 += 1;
        }
        proof {
            assert(subs_killed(*old(self), *self, ds@)) by {
                assert forall|t: usize| t < old(self).subs@.len()
                    implies #[trigger] self.subs@[t as int] == (
                    if ds@.contains(SubRef(t)) {
                        Option::<crate::document::SubproofNode>::None
                    } else {
                        old(self).subs@[t as int]
                    }) by {
                    if ds@.contains(SubRef(t)) {
                        let m = choose|m: int| 0 <= m < ds@.len() && ds@[m] == SubRef(t);
                        assert(self.subs@[(ds@[m]).0 as int] is None);
                        assert((ds@[m]).0 == t);
                    }
                }
            }
            assert(!ds@.contains(SubRef(ps))) by {
                if in_subtree(*old(self), ps, x.0) {
                    lemma_in_subtree_le(*old(self), ps, x.0);
                }
            }
            assert(self.subs@[ps as int] == old(self).subs@[ps as int]);
        }

        let mut node = self.subs.remove(ps).unwrap();
        node.lines.remove(kpos);
        self.subs.insert(ps, Some(node));

        proof {
            let p0 = *old(self);
            let p1 = *self;
            assert(p1.subs@.len() == p0.subs@.len());
            assert forall|t: usize| t < p0.subs@.len() && t != ps
                implies #[trigger] p1.subs@[t as int] == (
                if ds@.contains(SubRef(t)) {
                    Option::<crate::document::SubproofNode>::None
                } else {
                    p0.subs@[t as int]
                }) by {
            }
            assert(subproof_removed(p0, p1, *x)) by {
                assert forall|pr: PremRef| pr.0 < p0.prems@.len()
                    implies (#[trigger] prem_live(p1, pr) <==> (prem_live(p0, pr) && !in_subtree(
                    p0,
                    prem_at(p0, pr).parent,
                    x.0,
                ))) by {
                    assert(p1.prems@[pr.0 as int] == (
                    if dp@.contains(PremRef(pr.0)) {
                        Option::<crate::document::Premise>::None
                    } else {
                        p0.prems@[pr.0 as int]
                    }));
                    assert(dp@.contains(PremRef(pr.0)) <==> prem_in_subtree(p0, PremRef(pr.0), x.0));
                    assert(pr == PremRef(pr.0));
                }
                assert forall|j: JustRef| j.0 < p0.justs@.len()
                    implies (#[trigger] just_live(p1, j) <==> (just_live(p0, j) && !in_subtree(
                    p0,
                    just_at(p0, j).parent,
                    x.0,
                ))) by {
                    assert(j == JustRef(j.0));
                }
                assert forall|c: SubRef| c.0 < p0.subs@.len()
                    implies (#[trigger] sub_live(p1, c) <==> (sub_live(p0, c) && !in_subtree(
                    p0,
                    c.0,
                    x.0,
                ))) by {
                    assert(c == SubRef(c.0));
                    if c.0 == ps {
                        assert(p1.subs@[ps as int] is Some);
                        assert(!in_subtree(p0, ps, x.0)) by {
                            if in_subtree(p0, ps, x.0) {
                                lemma_in_subtree_le(p0, ps, x.0);
                            }
                        }
                    }
                }
                assert forall|pr: PremRef| #[trigger] prem_live(p1, pr)
                    implies p1.prems@[pr.0 as int] == p0.prems@[pr.0 as int] by {
                    assert(pr == PremRef(pr.0));
                }
                assert forall|j: JustRef| #[trigger] just_live(p1, j)
                    implies p1.justs@[j.0 as int] == p0.justs@[j.0 as int] by {
                    assert(j == JustRef(j.0));
                }
                assert forall|c: SubRef| #[trigger] sub_live(p1, c) && c.0 != ps
                    implies p1.subs@[c.0 as int] == p0.subs@[c.0 as int] by {
                    assert(c == SubRef(c.0));
                }
            }
            lemma_wf_subproof_removed(p0, p1, *x);
            assert(in_subtree(p0, x.0, x.0));
        }
        true
    }
}

} // verus!
