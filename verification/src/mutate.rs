//! Structural mutations: inserting premises, justification steps and
//! sub-proofs, either appended or positioned relative to an existing
//! reference. Every operation preserves document well-formedness and leaves
//! every other entity's slot untouched, so unrelated references keep
//! resolving to the same entities.

use vstd::prelude::*;
use crate::document::{
    Proof, Premise, Justification, JustEntry, SubproofNode,
    prem_live, prem_at, just_live, just_at, sub_live, sub_at,
    sub_entries_ok, prem_parent_ok, just_parent_ok, sub_parent_ok,
    line_ok, distinct_seq, wf,
};
use crate::expr::Expr;
use crate::rules::Rule;
use crate::refs::{PremRef, JustRef, SubRef, PjRef, JsRef, Line};
use crate::seq_facts::{
    lemma_insert_contains, lemma_insert_distinct, lemma_dedup_facts, lemma_pos_of,
    dedup_spec, pos_of,
};

verus! {

// ---------------------------------------------------------------------------
// What each insertion does, stated once and shared by the public contracts
// ---------------------------------------------------------------------------

/// `p1` is `p0` with a fresh premise `nr` carrying `e` inserted at `pos` of
/// the premise list of sub-proof `s`, and nothing else changed.
pub open spec fn premise_inserted(p0: Proof, p1: Proof, s: usize, pos: int, e: Expr, nr: PremRef) -> bool {
    &&& nr == PremRef(p0.prems@.len() as usize)
    &&& !prem_live(p0, nr)
    &&& prem_live(p1, nr)
    &&& p1.prems@ == p0.prems@.push(Some(Premise { expr: e, parent: s }))
    &&& p1.justs@ == p0.justs@
    &&& p1.subs@.len() == p0.subs@.len()
    &&& forall|i: int| 0 <= i < p0.subs@.len() && i != s ==> p1.subs@[i] == p0.subs@[i]
    &&& sub_live(p1, SubRef(s))
    &&& sub_at(p1, SubRef(s)).premises@ == sub_at(p0, SubRef(s)).premises@.insert(pos, nr)
    &&& sub_at(p1, SubRef(s)).lines@ == sub_at(p0, SubRef(s)).lines@
    &&& sub_at(p1, SubRef(s)).parent == sub_at(p0, SubRef(s)).parent
}

/// `p1` is `p0` with a fresh justification `nr` (the given one, its citation
/// lists de-duplicated) inserted at `pos` of the line sequence of sub-proof
/// `s`, and nothing else changed.
pub open spec fn step_inserted(p0: Proof, p1: Proof, s: usize, pos: int, j: Justification, nr: JustRef) -> bool {
    &&& nr == JustRef(p0.justs@.len() as usize)
    &&& !just_live(p0, nr)
    &&& just_live(p1, nr)
    &&& p1.justs@.len() == p0.justs@.len() + 1
    &&& forall|x: int| 0 <= x < p0.justs@.len() ==> p1.justs@[x] == p0.justs@[x]
    &&& just_at(p1, nr).parent == s
    &&& just_at(p1, nr).just.conclusion == j.conclusion
    &&& just_at(p1, nr).just.rule == j.rule
    &&& just_at(p1, nr).just.deps@ == dedup_spec(j.deps@)
    &&& just_at(p1, nr).just.sdeps@ == dedup_spec(j.sdeps@)
    &&& p1.prems@ == p0.prems@
    &&& p1.subs@.len() == p0.subs@.len()
    &&& forall|i: int| 0 <= i < p0.subs@.len() && i != s ==> p1.subs@[i] == p0.subs@[i]
    &&& sub_live(p1, SubRef(s))
    &&& sub_at(p1, SubRef(s)).lines@ == sub_at(p0, SubRef(s)).lines@.insert(pos, Line::Direct(nr))
    &&& sub_at(p1, SubRef(s)).premises@ == sub_at(p0, SubRef(s)).premises@
    &&& sub_at(p1, SubRef(s)).parent == sub_at(p0, SubRef(s)).parent
}

/// `p1` is `p0` with a fresh, initially empty sub-proof `nr` inserted as a
/// line at `pos` of the line sequence of sub-proof `s`, and nothing else
/// changed.
pub open spec fn subproof_inserted(p0: Proof, p1: Proof, s: usize, pos: int, nr: SubRef) -> bool {
    &&& nr == SubRef(p0.subs@.len() as usize)
    &&& !sub_live(p0, nr)
    &&& sub_live(p1, nr)
    &&& p1.prems@ == p0.prems@
    &&& p1.justs@ == p0.justs@
    &&& p1.subs@.len() == p0.subs@.len() + 1
    &&& forall|i: int| 0 <= i < p0.subs@.len() && i != s ==> p1.subs@[i] == p0.subs@[i]
    &&& sub_at(p1, nr).premises@ == Seq::<PremRef>::empty()
    &&& sub_at(p1, nr).lines@ == Seq::<Line>::empty()
    &&& sub_at(p1, nr).parent == Some(SubRef(s))
    &&& sub_live(p1, SubRef(s))
    &&& sub_at(p1, SubRef(s)).lines@ == sub_at(p0, SubRef(s)).lines@.insert(pos, Line::Sub(nr))
    &&& sub_at(p1, SubRef(s)).premises@ == sub_at(p0, SubRef(s)).premises@
    &&& sub_at(p1, SubRef(s)).parent == sub_at(p0, SubRef(s)).parent
}

// ---------------------------------------------------------------------------
// Well-formedness is preserved by each insertion shape
// ---------------------------------------------------------------------------

proof fn lemma_wf_premise_inserted(p0: Proof, p1: Proof, s: usize, pos: int, e: Expr, nr: PremRef)
    requires
        wf(p0),
        sub_live(p0, SubRef(s)),
        0 <= pos <= sub_at(p0, SubRef(s)).premises@.len(),
        premise_inserted(p0, p1, s, pos, e, nr),
    ensures
        wf(p1),
{
    let a0 = sub_at(p0, SubRef(s)).premises@;
    let a1 = sub_at(p1, SubRef(s)).premises@;
    assert(p0.subs@[s as int] is Some);
    assert(sub_entries_ok(p0, s));
    a0.insert_ensures(pos, nr);
    assert(!a0.contains(nr)) by {
        if a0.contains(nr) {
            let k = choose|k: int| 0 <= k < a0.len() && a0[k] == nr;
            assert(prem_live(p0, a0[k]));
            assert(false);
        }
    }
    lemma_insert_contains(a0, pos, nr);
    lemma_insert_distinct(a0, pos, nr);

    assert(p1.subs@[0] is Some) by {
        if s != 0 {
            assert(p1.subs@[0] == p0.subs@[0]);
        }
    }

    assert forall|i: usize| i < p1.subs@.len() && (#[trigger] p1.subs@[i as int]) is Some
        implies sub_entries_ok(p1, i) by {
        let iu = i;
        assert(p0.subs@[i as int] is Some) by {
            if i != s {
                assert(p1.subs@[i as int] == p0.subs@[i as int]);
            }
        }
        assert(sub_entries_ok(p0, iu));
        let n0 = sub_at(p0, SubRef(iu));
        let n1 = sub_at(p1, SubRef(iu));
        if i != s {
            assert(p1.subs@[i as int] == p0.subs@[i as int]);
            assert(n1 == n0);
        }
        assert(n1.lines@ == n0.lines@);
        assert(n1.premises@ == (if i == s { a1 } else { n0.premises@ }));
        assert forall|k: int| 0 <= k < n1.premises@.len()
            implies prem_live(p1, #[trigger] n1.premises@[k])
                && prem_at(p1, n1.premises@[k]).parent == iu by {
            if i == s {
                if k < pos {
                    assert(n1.premises@[k] == a0[k]);
                    assert(prem_live(p0, a0[k]));
                } else if k == pos {
                    assert(n1.premises@[k] == nr);
                } else {
                    assert(n1.premises@[k] == a0[k - 1]);
                    assert(prem_live(p0, a0[k - 1]));
                }
            } else {
                assert(prem_live(p0, n0.premises@[k]));
            }
        }
        assert(distinct_seq(n1.premises@));
        assert forall|k: int| 0 <= k < n1.lines@.len()
            implies line_ok(p1, iu, #[trigger] n1.lines@[k]) by {
            assert(line_ok(p0, iu, n0.lines@[k]));
            match n0.lines@[k] {
                Line::Direct(j) => {
                    assert(just_live(p1, j) && just_at(p1, j) == just_at(p0, j));
                },
                Line::Sub(c) => {
                    if c.0 != s {
                        assert(p1.subs@[c.0 as int] == p0.subs@[c.0 as int]);
                    }
                    assert(sub_live(p1, c) && sub_at(p1, c).parent == sub_at(p0, c).parent);
                },
            }
        }
        assert(distinct_seq(n1.lines@));
    }

    assert forall|x: usize| x < p1.prems@.len() && (#[trigger] p1.prems@[x as int]) is Some
        implies prem_parent_ok(p1, x) by {
        if x == p0.prems@.len() {
            assert(p1.prems@[x as int].unwrap().parent == s);
            assert(a1.contains(nr));
            assert(PremRef(x) == nr);
        } else {
            assert(p1.prems@[x as int] == p0.prems@[x as int]);
            assert(prem_parent_ok(p0, x));
            let par = p0.prems@[x as int].unwrap().parent;
            if par == s {
                assert(a0.contains(PremRef(x)));
                assert(a1.contains(PremRef(x)));
            } else {
                assert(p1.subs@[par as int] == p0.subs@[par as int]);
            }
        }
    }

    assert forall|x: usize| x < p1.justs@.len() && (#[trigger] p1.justs@[x as int]) is Some
        implies just_parent_ok(p1, x) by {
        assert(just_parent_ok(p0, x));
        let par = p0.justs@[x as int].unwrap().parent;
        if par == s {
            assert(sub_at(p1, SubRef(par)).lines@ == sub_at(p0, SubRef(par)).lines@);
        } else {
            assert(p1.subs@[par as int] == p0.subs@[par as int]);
        }
    }

    assert forall|x: usize| x < p1.subs@.len() && (#[trigger] p1.subs@[x as int]) is Some
        implies sub_parent_ok(p1, x) by {
        assert(p0.subs@[x as int] is Some) by {
            if x != s {
                assert(p1.subs@[x as int] == p0.subs@[x as int]);
            }
        }
        assert(sub_parent_ok(p0, x));
        assert(sub_at(p1, SubRef(x)).parent == sub_at(p0, SubRef(x)).parent) by {
            if x != s {
                assert(p1.subs@[x as int] == p0.subs@[x as int]);
            }
        }
        if x != 0 {
            let par = sub_at(p0, SubRef(x)).parent.unwrap();
            if par.0 == s {
                assert(sub_at(p1, par).lines@ == sub_at(p0, par).lines@);
            } else {
                assert(p1.subs@[par.0 as int] == p0.subs@[par.0 as int]);
            }
        }
    }
}

proof fn lemma_wf_step_inserted(p0: Proof, p1: Proof, s: usize, pos: int, j: Justification, nr: JustRef)
    requires
        wf(p0),
        sub_live(p0, SubRef(s)),
        0 <= pos <= sub_at(p0, SubRef(s)).lines@.len(),
        step_inserted(p0, p1, s, pos, j, nr),
    ensures
        wf(p1),
{
    let l0 = sub_at(p0, SubRef(s)).lines@;
    let l1 = sub_at(p1, SubRef(s)).lines@;
    let nl = Line::Direct(nr);
    assert(p0.subs@[s as int] is Some);
    assert(sub_entries_ok(p0, s));
    l0.insert_ensures(pos, nl);
    assert(!l0.contains(nl)) by {
        if l0.contains(nl) {
            let k = choose|k: int| 0 <= k < l0.len() && l0[k] == nl;
            assert(line_ok(p0, s, l0[k]));
            assert(just_live(p0, nr));
            assert(false);
        }
    }
    lemma_insert_contains(l0, pos, nl);
    lemma_insert_distinct(l0, pos, nl);
    lemma_dedup_facts(j.deps@);
    lemma_dedup_facts(j.sdeps@);

    assert(p1.subs@[0] is Some) by {
        if s != 0 {
            assert(p1.subs@[0] == p0.subs@[0]);
        }
    }

    assert forall|i: usize| i < p1.subs@.len() && (#[trigger] p1.subs@[i as int]) is Some
        implies sub_entries_ok(p1, i) by {
        let iu = i;
        assert(p0.subs@[i as int] is Some) by {
            if i != s {
                assert(p1.subs@[i as int] == p0.subs@[i as int]);
            }
        }
        assert(sub_entries_ok(p0, iu));
        let n0 = sub_at(p0, SubRef(iu));
        let n1 = sub_at(p1, SubRef(iu));
        if i != s {
            assert(p1.subs@[i as int] == p0.subs@[i as int]);
            assert(n1 == n0);
        }
        assert(n1.premises@ == n0.premises@);
        assert(n1.lines@ == (if i == s { l1 } else { n0.lines@ }));
        assert forall|k: int| 0 <= k < n1.premises@.len()
            implies prem_live(p1, #[trigger] n1.premises@[k])
                && prem_at(p1, n1.premises@[k]).parent == iu by {
            assert(prem_live(p0, n0.premises@[k]));
        }
        assert(distinct_seq(n1.premises@));
        assert forall|k: int| 0 <= k < n1.lines@.len()
            implies line_ok(p1, iu, #[trigger] n1.lines@[k]) by {
            let l = n1.lines@[k];
            if i == s && k == pos {
                assert(l == nl);
                assert(just_live(p1, nr) && just_at(p1, nr).parent == s);
            } else {
                assert(line_ok(p0, iu, l)) by {
                    if i == s {
                        if k < pos {
                            assert(l1[k] == l0[k]);
                        } else {
                            assert(l1[k] == l0[k - 1]);
                        }
                    }
                }
                match l {
                    Line::Direct(jj) => {
                        assert(just_live(p0, jj));
                        assert(p1.justs@[jj.0 as int] == p0.justs@[jj.0 as int]);
                    },
                    Line::Sub(c) => {
                        if c.0 != s {
                            assert(p1.subs@[c.0 as int] == p0.subs@[c.0 as int]);
                        }
                        assert(sub_live(p1, c) && sub_at(p1, c).parent == sub_at(p0, c).parent);
                    },
                }
            }
        }
        assert(distinct_seq(n1.lines@));
    }

    assert forall|x: usize| x < p1.prems@.len() && (#[trigger] p1.prems@[x as int]) is Some
        implies prem_parent_ok(p1, x) by {
        assert(prem_parent_ok(p0, x));
        let par = p0.prems@[x as int].unwrap().parent;
        if par == s {
            assert(sub_at(p1, SubRef(par)).premises@ == sub_at(p0, SubRef(par)).premises@);
        } else {
            assert(p1.subs@[par as int] == p0.subs@[par as int]);
        }
    }

    assert forall|x: usize| x < p1.justs@.len() && (#[trigger] p1.justs@[x as int]) is Some
        implies just_parent_ok(p1, x) by {
        if x == p0.justs@.len() {
            assert(JustRef(x) == nr);
            assert(l1.contains(nl));
            assert(distinct_seq(just_at(p1, nr).just.deps@));
            assert(distinct_seq(just_at(p1, nr).just.sdeps@));
        } else {
            assert(p1.justs@[x as int] == p0.justs@[x as int]);
            assert(just_parent_ok(p0, x));
            let par = p0.justs@[x as int].unwrap().parent;
            if par == s {
                assert(l0.contains(Line::Direct(JustRef(x))));
                assert(l1.contains(Line::Direct(JustRef(x))));
            } else {
                assert(p1.subs@[par as int] == p0.subs@[par as int]);
            }
        }
    }

    assert forall|x: usize| x < p1.subs@.len() && (#[trigger] p1.subs@[x as int]) is Some
        implies sub_parent_ok(p1, x) by {
        assert(p0.subs@[x as int] is Some) by {
            if x != s {
                assert(p1.subs@[x as int] == p0.subs@[x as int]);
            }
        }
        assert(sub_parent_ok(p0, x));
        assert(sub_at(p1, SubRef(x)).parent == sub_at(p0, SubRef(x)).parent) by {
            if x != s {
                assert(p1.subs@[x as int] == p0.subs@[x as int]);
            }
        }
        if x != 0 {
            let par = sub_at(p0, SubRef(x)).parent.unwrap();
            if par.0 == s {
                assert(l0.contains(Line::Sub(SubRef(x))));
                assert(l1.contains(Line::Sub(SubRef(x))));
            } else {
                assert(p1.subs@[par.0 as int] == p0.subs@[par.0 as int]);
            }
        }
    }
}

proof fn lemma_wf_subproof_inserted(p0: Proof, p1: Proof, s: usize, pos: int, nr: SubRef)
    requires
        wf(p0),
        sub_live(p0, SubRef(s)),
        0 <= pos <= sub_at(p0, SubRef(s)).lines@.len(),
        s < p0.subs@.len(),
        subproof_inserted(p0, p1, s, pos, nr),
    ensures
        wf(p1),
{
    let l0 = sub_at(p0, SubRef(s)).lines@;
    let l1 = sub_at(p1, SubRef(s)).lines@;
    let nl = Line::Sub(nr);
    assert(p0.subs@[s as int] is Some);
    assert(sub_entries_ok(p0, s));
    l0.insert_ensures(pos, nl);
    assert(!l0.contains(nl)) by {
        if l0.contains(nl) {
            let k = choose|k: int| 0 <= k < l0.len() && l0[k] == nl;
            assert(line_ok(p0, s, l0[k]));
            assert(sub_live(p0, nr));
            assert(false);
        }
    }
    lemma_insert_contains(l0, pos, nl);
    lemma_insert_distinct(l0, pos, nl);

    assert(p1.subs@[0] is Some) by {
        if s != 0 {
            assert(p1.subs@[0] == p0.subs@[0]);
        }
    }

    assert forall|i: usize| i < p1.subs@.len() && (#[trigger] p1.subs@[i as int]) is Some
        implies sub_entries_ok(p1, i) by {
        let iu = i;
        if i == nr.0 {
            assert(sub_at(p1, nr).premises@.len() == 0);
            assert(sub_at(p1, nr).lines@.len() == 0);
        } else {
            assert(p0.subs@[i as int] is Some) by {
                if i != s {
                    assert(p1.subs@[i as int] == p0.subs@[i as int]);
                }
            }
            assert(sub_entries_ok(p0, iu));
            let n0 = sub_at(p0, SubRef(iu));
            let n1 = sub_at(p1, SubRef(iu));
            if i != s {
                assert(p1.subs@[i as int] == p0.subs@[i as int]);
                assert(n1 == n0);
            }
            assert(n1.premises@ == n0.premises@);
            assert(n1.lines@ == (if i == s { l1 } else { n0.lines@ }));
            assert forall|k: int| 0 <= k < n1.premises@.len()
                implies prem_live(p1, #[trigger] n1.premises@[k])
                    && prem_at(p1, n1.premises@[k]).parent == iu by {
                assert(prem_live(p0, n0.premises@[k]));
            }
            assert(distinct_seq(n1.premises@));
            assert forall|k: int| 0 <= k < n1.lines@.len()
                implies line_ok(p1, iu, #[trigger] n1.lines@[k]) by {
                let l = n1.lines@[k];
                if i == s && k == pos {
                    assert(l == nl);
                    assert(sub_live(p1, nr) && sub_at(p1, nr).parent == Some(SubRef(s)));
                    assert(nr.0 > s);
                } else {
                    assert(line_ok(p0, iu, l)) by {
                        if i == s {
                            if k < pos {
                                assert(l1[k] == l0[k]);
                            } else {
                                assert(l1[k] == l0[k - 1]);
                            }
                        }
                    }
                    match l {
                        Line::Direct(jj) => {
                            assert(just_live(p1, jj) && just_at(p1, jj) == just_at(p0, jj));
                        },
                        Line::Sub(c) => {
                            if c.0 != s {
                                assert(p1.subs@[c.0 as int] == p0.subs@[c.0 as int]);
                            }
                            assert(sub_live(p1, c) && sub_at(p1, c).parent == sub_at(p0, c).parent);
                        },
                    }
                }
            }
            assert(distinct_seq(n1.lines@));
        }
    }

    assert forall|x: usize| x < p1.prems@.len() && (#[trigger] p1.prems@[x as int]) is Some
        implies prem_parent_ok(p1, x) by {
        assert(prem_parent_ok(p0, x));
        let par = p0.prems@[x as int].unwrap().parent;
        if par == s {
            assert(sub_at(p1, SubRef(par)).premises@ == sub_at(p0, SubRef(par)).premises@);
        } else {
            assert(p1.subs@[par as int] == p0.subs@[par as int]);
        }
    }

    assert forall|x: usize| x < p1.justs@.len() && (#[trigger] p1.justs@[x as int]) is Some
        implies just_parent_ok(p1, x) by {
        assert(just_parent_ok(p0, x));
        let par = p0.justs@[x as int].unwrap().parent;
        if par == s {
            assert(l0.contains(Line::Direct(JustRef(x as usize))));
            assert(l1.contains(Line::Direct(JustRef(x as usize))));
        } else {
            assert(p1.subs@[par as int] == p0.subs@[par as int]);
        }
    }

    assert forall|x: usize| x < p1.subs@.len() && (#[trigger] p1.subs@[x as int]) is Some
        implies sub_parent_ok(p1, x) by {
        if x == nr.0 {
            assert(sub_at(p1, nr).parent == Some(SubRef(s)));
            assert(s < x);
            assert(l1.contains(nl));
        } else {
            assert(p0.subs@[x as int] is Some) by {
                if x != s {
                    assert(p1.subs@[x as int] == p0.subs@[x as int]);
                }
            }
            assert(sub_parent_ok(p0, x));
            assert(sub_at(p1, SubRef(x)).parent == sub_at(p0, SubRef(x)).parent) by {
                if x != s {
                    assert(p1.subs@[x as int] == p0.subs@[x as int]);
                }
            }
            if x != 0 {
                let par = sub_at(p0, SubRef(x)).parent.unwrap();
                if par.0 == s {
                    assert(l0.contains(Line::Sub(SubRef(x))));
                    assert(l1.contains(Line::Sub(SubRef(x))));
                } else {
                    assert(p1.subs@[par.0 as int] == p0.subs@[par.0 as int]);
                }
            }
        }
    }
}

// ---------------------------------------------------------------------------
// Reference-list copying and de-duplication
// ---------------------------------------------------------------------------

/// Whether `x` occurs in `v`.
pub fn contains_pjref(v: &Vec<crate::refs::PjRef>, x: &crate::refs::PjRef) -> (r: bool)
    ensures
        r == v@.contains(*x),
{
    let mut i: usize = 0;
    while i < v.len()
        invariant
            i <= v@.len(),
            forall|k: int| 0 <= k < i ==> v@[k] != *x,
        decreases v@.len() - i,
    {
        if v[i] == *x {
            return true;
        }
        i += 1;
    }
    false
}

/// Whether `x` occurs in `v`.
pub fn contains_subref(v: &Vec<SubRef>, x: &SubRef) -> (r: bool)
    ensures
        r == v@.contains(*x),
{
    let mut i: usize = 0;
    while i < v.len()
        invariant
            i <= v@.len(),
            forall|k: int| 0 <= k < i ==> v@[k] != *x,
        decreases v@.len() - i,
    {
        if v[i] == *x {
            return true;
        }
        i += 1;
    }
    false
}

/// Drops duplicate citations, keeping first occurrences.
pub fn dedup_pjrefs(v: &Vec<crate::refs::PjRef>) -> (r: Vec<crate::refs::PjRef>)
    ensures
        r@ == dedup_spec(v@),
{
    let mut out: Vec<crate::refs::PjRef> = Vec::new();
    let mut i: usize = 0;
    while i < v.len()
        invariant
            i <= v@.len(),
            out@ == dedup_spec(v@.take(i as int)),
        decreases v@.len() - i,
    {
        proof {
            assert(v@.take(i as int + 1).drop_last() =~= v@.take(i as int));
            assert(v@.take(i as int + 1).last() == v@[i as int]);
            lemma_dedup_facts(v@.take(i as int));
        }
        if !contains_pjref(&out, &v[i]) {
            out.push(v[i]);
        }
        i += 1;
    }
    proof {
        assert(v@.take(v@.len() as int) =~= v@);
    }
    out
}

/// Drops duplicate citations, keeping first occurrences.
pub fn dedup_subrefs(v: &Vec<SubRef>) -> (r: Vec<SubRef>)
    ensures
        r@ == dedup_spec(v@),
{
    let mut out: Vec<SubRef> = Vec::new();
    let mut i: usize = 0;
    while i < v.len()
        invariant
            i <= v@.len(),
            out@ == dedup_spec(v@.take(i as int)),
        decreases v@.len() - i,
    {
        proof {
            assert(v@.take(i as int + 1).drop_last() =~= v@.take(i as int));
            assert(v@.take(i as int + 1).last() == v@[i as int]);
            lemma_dedup_facts(v@.take(i as int));
        }
        if !contains_subref(&out, &v[i]) {
            out.push(v[i]);
        }
        i += 1;
    }
    proof {
        assert(v@.take(v@.len() as int) =~= v@);
    }
    out
}

// ---------------------------------------------------------------------------
// Insertion primitives and the public mutation API
// ---------------------------------------------------------------------------

impl Proof {
    /// The index of `pr` in the premise list of the live sub-proof `s`.
    pub(crate) fn premise_pos(&self, s: usize, pr: &PremRef) -> (res: Option<usize>)
        requires
            sub_live(*self, SubRef(s)),
        ensures
            match res {
                Some(k) => k < sub_at(*self, SubRef(s)).premises@.len()
                    && sub_at(*self, SubRef(s)).premises@[k as int] == *pr,
                None => !sub_at(*self, SubRef(s)).premises@.contains(*pr),
            },
    {
        let node = self.subs[s].as_ref().unwrap();
        let mut i: usize = 0;
        while i < node.premises.len()
            invariant
                i <= node.premises@.len(),
                forall|k: int| 0 <= k < i ==> node.premises@[k] != *pr,
                *node == sub_at(*self, SubRef(s)),
            decreases node.premises@.len() - i,
        {
            if node.premises[i] == *pr {
                return Some(i);
            }
            i += 1;
        }
        None
    }

    /// The index of the line `l` in the line sequence of the live sub-proof `s`.
    pub(crate) fn line_pos(&self, s: usize, l: Line) -> (res: Option<usize>)
        requires
            sub_live(*self, SubRef(s)),
        ensures
            match res {
                Some(k) => k < sub_at(*self, SubRef(s)).lines@.len()
                    && sub_at(*self, SubRef(s)).lines@[k as int] == l,
                None => !sub_at(*self, SubRef(s)).lines@.contains(l),
            },
    {
        let node = self.subs[s].as_ref().unwrap();
        let mut i: usize = 0;
        while i < node.lines.len()
            invariant
                i <= node.lines@.len(),
                forall|k: int| 0 <= k < i ==> node.lines@[k] != l,
                *node == sub_at(*self, SubRef(s)),
            decreases node.lines@.len() - i,
        {
            if node.lines[i] == l {
                return Some(i);
            }
            i += 1;
        }
        None
    }

    /// Allocates a fresh premise slot and threads it into the premise list
    /// of sub-proof `s` at position `pos`.
    pub(crate) fn insert_premise_at(&mut self, s: usize, pos: usize, e: Expr) -> (r: PremRef)
        requires
            wf(*old(self)),
            sub_live(*old(self), SubRef(s)),
            pos <= sub_at(*old(self), SubRef(s)).premises@.len(),
        ensures
            wf(*final(self)),
            premise_inserted(*old(self), *final(self), s, pos as int, e, r),
    {
        let idx = self.prems.len();
        self.prems.push(Some(Premise { expr: e, parent: s }));
        let mut node = self.subs.remove(s).unwrap();
        node.premises.insert(pos, PremRef(idx));
        self.subs.insert(s, Some(node));
        proof {
            let p0 = *old(self);
            let p1 = *self;
            assert(p1.subs@ =~= p0.subs@.update(s as int, p1.subs@[s as int]));
            assert(premise_inserted(p0, p1, s, pos as int, e, PremRef(idx)));
            lemma_wf_premise_inserted(p0, p1, s, pos as int, e, PremRef(idx));
        }
        PremRef(idx)
    }

    /// Allocates a fresh justification slot (citations de-duplicated) and
    /// threads it into the line sequence of sub-proof `s` at position `pos`.
    pub(crate) fn insert_step_at(&mut self, s: usize, pos: usize, j: Justification) -> (r: JustRef)
        requires
            wf(*old(self)),
            sub_live(*old(self), SubRef(s)),
            pos <= sub_at(*old(self), SubRef(s)).lines@.len(),
        ensures
            wf(*final(self)),
            step_inserted(*old(self), *final(self), s, pos as int, j, r),
    {
        let ghost j0 = j;
        let idx = self.justs.len();
        let nd = dedup_pjrefs(&j.deps);
        let ns = dedup_subrefs(&j.sdeps);
        let nj = Justification { conclusion: j.conclusion, rule: j.rule, deps: nd, sdeps: ns };
        self.justs.push(Some(JustEntry { just: nj, parent: s }));
        let mut node = self.subs.remove(s).unwrap();
        node.lines.insert(pos, Line::Direct(JustRef(idx)));
        self.subs.insert(s, Some(node));
        proof {
            let p0 = *old(self);
            let p1 = *self;
            assert(p1.subs@ =~= p0.subs@.update(s as int, p1.subs@[s as int]));
            assert(step_inserted(p0, p1, s, pos as int, j0, JustRef(idx)));
            lemma_wf_step_inserted(p0, p1, s, pos as int, j0, JustRef(idx));
        }
        JustRef(idx)
    }

    /// Allocates a fresh, empty sub-proof slot and threads it into the line
    /// sequence of sub-proof `s` at position `pos`.
    pub(crate) fn insert_subproof_at(&mut self, s: usize, pos: usize) -> (r: SubRef)
        requires
            wf(*old(self)),
            sub_live(*old(self), SubRef(s)),
            pos <= sub_at(*old(self), SubRef(s)).lines@.len(),
        ensures
            wf(*final(self)),
            subproof_inserted(*old(self), *final(self), s, pos as int, r),
    {
        let idx = self.subs.len();
        self.subs.push(Some(SubproofNode {
            premises: Vec::new(),
            lines: Vec::new(),
            parent: Some(SubRef(s)),
        }));
        let mut node = self.subs.remove(s).unwrap();
        node.lines.insert(pos, Line::Sub(SubRef(idx)));
        self.subs.insert(s, Some(node));
        proof {
            let p0 = *old(self);
            let p1 = *self;
            assert(p1.subs@ =~= p0.subs@.push(p1.subs@[idx as int]).update(
                s as int,
                p1.subs@[s as int],
            ));
            assert(subproof_inserted(p0, p1, s, pos as int, SubRef(idx)));
            lemma_wf_subproof_inserted(p0, p1, s, pos as int, SubRef(idx));
        }
        SubRef(idx)
    }

    /// Appends a premise to the root sub-proof.
    pub fn add_premise(&mut self, e: Expr) -> (r: PremRef)
        requires
            wf(*old(self)),
        ensures
            wf(*final(self)),
            premise_inserted(
                *old(self),
                *final(self),
                0,
                sub_at(*old(self), SubRef(0)).premises@.len() as int,
                e,
                r,
            ),
    {
        let n = self.subs[0].as_ref().unwrap().premises.len();
        self.insert_premise_at(0, n, e)
    }

    /// Appends a justification step to the root sub-proof's lines.
    pub fn add_step(&mut self, j: Justification) -> (r: JustRef)
        requires
            wf(*old(self)),
        ensures
            wf(*final(self)),
            step_inserted(
                *old(self),
                *final(self),
                0,
                sub_at(*old(self), SubRef(0)).lines@.len() as int,
                j,
                r,
            ),
    {
        let n = self.subs[0].as_ref().unwrap().lines.len();
        self.insert_step_at(0, n, j)
    }

    /// Appends an empty sub-proof to the root sub-proof's lines.
    pub fn add_subproof(&mut self) -> (r: SubRef)
        requires
            wf(*old(self)),
        ensures
            wf(*final(self)),
            subproof_inserted(
                *old(self),
                *final(self),
                0,
                sub_at(*old(self), SubRef(0)).lines@.len() as int,
                r,
            ),
    {
        let n = self.subs[0].as_ref().unwrap().lines.len();
        self.insert_subproof_at(0, n)
    }

    /// Appends a premise inside the sub-proof `sr`.
    pub fn add_premise_in(&mut self, sr: &SubRef, e: Expr) -> (res: Option<PremRef>)
        requires
            wf(*old(self)),
        ensures
            wf(*final(self)),
            !sub_live(*old(self), *sr) ==> res is None && *final(self) == *old(self),
            sub_live(*old(self), *sr) ==> res is Some && premise_inserted(
                *old(self),
                *final(self),
                sr.0,
                sub_at(*old(self), *sr).premises@.len() as int,
                e,
                res.unwrap(),
            ),
    {
        if sr.0 >= self.subs.len() {
            return None;
        }
        let n = match &self.subs[sr.0] {
            Some(node) => node.premises.len(),
            None => {
                return None;
            },
        };
        Some(self.insert_premise_at(sr.0, n, e))
    }

    /// Appends a justification step inside the sub-proof `sr`.
    pub fn add_step_in(&mut self, sr: &SubRef, j: Justification) -> (res: Option<JustRef>)
        requires
            wf(*old(self)),
        ensures
            wf(*final(self)),
            !sub_live(*old(self), *sr) ==> res is None && *final(self) == *old(self),
            sub_live(*old(self), *sr) ==> res is Some && step_inserted(
                *old(self),
                *final(self),
                sr.0,
                sub_at(*old(self), *sr).lines@.len() as int,
                j,
                res.unwrap(),
            ),
    {
        if sr.0 >= self.subs.len() {
            return None;
        }
        let n = match &self.subs[sr.0] {
            Some(node) => node.lines.len(),
            None => {
                return None;
            },
        };
        Some(self.insert_step_at(sr.0, n, j))
    }

    /// Inserts a premise right before or after the premise `r`, in the same
    /// sub-proof; refused when `r` is stale.
    pub fn add_premise_relative(&mut self, e: Expr, r: &PremRef, after: bool) -> (res: Option<
        PremRef,
    >)
        requires
            wf(*old(self)),
        ensures
            wf(*final(self)),
            !prem_live(*old(self), *r) ==> res is None && *final(self) == *old(self),
            prem_live(*old(self), *r) ==> res is Some && premise_inserted(
                *old(self),
                *final(self),
                prem_at(*old(self), *r).parent,
                pos_of(
                    sub_at(*old(self), SubRef(prem_at(*old(self), *r).parent)).premises@,
                    *r,
                ) + (if after { 1int } else { 0int }),
                e,
                res.unwrap(),
            ),
    {
        if r.0 >= self.prems.len() {
            return None;
        }
        let s = match &self.prems[r.0] {
            Some(pe) => pe.parent,
            None => {
                return None;
            },
        };
        proof {
            assert(prem_parent_ok(*self, r.0));
        }
        let k = match self.premise_pos(s, r) {
            Some(k) => k,
            None => {
                proof {
                    assert(false);
                }
                return None;
            },
        };
        let plen = self.subs[s].as_ref().unwrap().premises.len();
        proof {
            assert(sub_entries_ok(*self, s));
            lemma_pos_of(sub_at(*self, SubRef(s)).premises@, *r, k as int);
        }
        let pos = if after { k + 1 } else { k };
        Some(self.insert_premise_at(s, pos, e))
    }

    /// Resolves a justification-or-sub-proof anchor to its owning sub-proof
    /// and the index of its line there.
    fn resolve_line_point(&self, r: &JsRef) -> (res: Option<(usize, usize)>)
        requires
            wf(*self),
        ensures
            match res {
                Some(sp) => js_anchor_ok(*self, *r) && sp.0 == js_owner(*self, *r) && sub_live(
                    *self,
                    SubRef(sp.0),
                ) && sp.1 < sub_at(*self, SubRef(sp.0)).lines@.len() && sp.1 as int == pos_of(
                    sub_at(*self, SubRef(sp.0)).lines@,
                    js_line(*r),
                ),
                None => !js_anchor_ok(*self, *r),
            },
    {
        let (s, l) = match r {
            JsRef::Just(jr) => {
                if jr.0 >= self.justs.len() {
                    return None;
                }
                match &self.justs[jr.0] {
                    Some(e) => {
                        proof {
                            assert(just_parent_ok(*self, jr.0));
                        }
                        (e.parent, Line::Direct(*jr))
                    },
                    None => {
                        return None;
                    },
                }
            },
            JsRef::Sub(x) => {
                if x.0 == 0 || x.0 >= self.subs.len() {
                    return None;
                }
                match &self.subs[x.0] {
                    Some(node) => {
                        proof {
                            assert(sub_parent_ok(*self, x.0));
                        }
                        match node.parent {
                            Some(pp) => (pp.0, Line::Sub(*x)),
                            None => {
                                proof {
                                    assert(false);
                                }
                                return None;
                            },
                        }
                    },
                    None => {
                        return None;
                    },
                }
            },
        };
        let k = match self.line_pos(s, l) {
            Some(k) => k,
            None => {
                proof {
                    assert(false);
                }
                return None;
            },
        };
        proof {
            assert(sub_entries_ok(*self, s));
            lemma_pos_of(sub_at(*self, SubRef(s)).lines@, l, k as int);
        }
        Some((s, k))
    }

    /// Inserts a justification step right before or after the line `r`
    /// stands on; refused when `r` is stale or names the root.
    pub fn add_step_relative(&mut self, j: Justification, r: &JsRef, after: bool) -> (res: Option<
        JustRef,
    >)
        requires
            wf(*old(self)),
        ensures
            wf(*final(self)),
            !js_anchor_ok(*old(self), *r) ==> res is None && *final(self) == *old(self),
            js_anchor_ok(*old(self), *r) ==> res is Some && step_inserted(
                *old(self),
                *final(self),
                js_owner(*old(self), *r),
                pos_of(sub_at(*old(self), SubRef(js_owner(*old(self), *r))).lines@, js_line(*r))
                    + (if after { 1int } else { 0int }),
                j,
                res.unwrap(),
            ),
    {
        let pt = match self.resolve_line_point(r) {
            Some(pt) => pt,
            None => {
                return None;
            },
        };
        let llen = self.subs[pt.0].as_ref().unwrap().lines.len();
        let pos = if after { pt.1 + 1 } else { pt.1 };
        Some(self.insert_step_at(pt.0, pos, j))
    }

    /// Inserts a fresh, empty sub-proof right before or after the line `r`
    /// stands on; refused when `r` is stale or names the root.
    pub fn add_subproof_relative(&mut self, r: &JsRef, after: bool) -> (res: Option<SubRef>)
        requires
            wf(*old(self)),
        ensures
            wf(*final(self)),
            !js_anchor_ok(*old(self), *r) ==> res is None && *final(self) == *old(self),
            js_anchor_ok(*old(self), *r) ==> res is Some && subproof_inserted(
                *old(self),
                *final(self),
                js_owner(*old(self), *r),
                pos_of(sub_at(*old(self), SubRef(js_owner(*old(self), *r))).lines@, js_line(*r))
                    + (if after { 1int } else { 0int }),
                res.unwrap(),
            ),
    {
        let pt = match self.resolve_line_point(r) {
            Some(pt) => pt,
            None => {
                return None;
            },
        };
        let llen = self.subs[pt.0].as_ref().unwrap().lines.len();
        let pos = if after { pt.1 + 1 } else { pt.1 };
        Some(self.insert_subproof_at(pt.0, pos))
    }
}

/// The line a justification-or-sub-proof anchor stands on.
pub open spec fn js_line(r: JsRef) -> Line {
    match r {
        JsRef::Just(j) => Line::Direct(j),
        JsRef::Sub(x) => Line::Sub(x),
    }
}

/// Whether an anchor can be inserted next to: it must be live, and the root
/// sub-proof is no line at all.
pub open spec fn js_anchor_ok(p: Proof, r: JsRef) -> bool {
    match r {
        JsRef::Just(j) => just_live(p, j),
        JsRef::Sub(x) => sub_live(p, x) && x.0 != 0,
    }
}

/// The sub-proof whose line sequence holds the anchor's line.
pub open spec fn js_owner(p: Proof, r: JsRef) -> usize {
    match r {
        JsRef::Just(j) => just_at(p, j).parent,
        JsRef::Sub(x) => sub_at(p, x).parent.unwrap().0,
    }
}

/// A minimal valid document: a root sub-proof holding one blank premise and
/// one placeholder step, justified by the reiteration rule citing nothing.
pub fn new_empty_proof() -> (p: Proof)
    ensures
        wf(p),
        sub_at(p, SubRef(0)).premises@ == seq![PremRef(0)],
        sub_at(p, SubRef(0)).lines@ == seq![Line::Direct(JustRef(0))],
        prem_live(p, PremRef(0)),
        prem_at(p, PremRef(0)).expr == Expr::Var(0),
        just_live(p, JustRef(0)),
        just_at(p, JustRef(0)).just.conclusion == Expr::Var(0),
        just_at(p, JustRef(0)).just.rule == Rule::Reit,
        just_at(p, JustRef(0)).just.deps@ == Seq::<PjRef>::empty(),
        just_at(p, JustRef(0)).just.sdeps@ == Seq::<SubRef>::empty(),
{
    let mut p = Proof::new();
    let e = Expr::blank();
    p.add_premise(e);
    let j = Justification {
        conclusion: Expr::blank(),
        rule: Rule::Reit,
        deps: Vec::new(),
        sdeps: Vec::new(),
    };
    p.add_step(j);
    proof {
        assert(sub_at(p, SubRef(0)).premises@ =~= seq![PremRef(0)]);
        assert(sub_at(p, SubRef(0)).lines@ =~= seq![Line::Direct(JustRef(0))]);
    }
    p
}

} // verus!
