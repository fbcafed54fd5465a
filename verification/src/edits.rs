//! In-place edits: removing a premise or justification line, toggling a
//! dependency citation, and rewriting one entity's contents under a caller
//! supplied transformation. Removal that would leave a sub-proof without any
//! premise or any line is refused outright, with the document untouched.

use vstd::prelude::*;
use crate::document::{
    Proof, Premise, Justification, JustEntry,
    prem_live, prem_at, just_live, just_at, sub_live, sub_at, pj_live,
    sub_entries_ok, prem_parent_ok, just_parent_ok, sub_parent_ok,
    line_ok, distinct_seq, wf,
};
use crate::expr::Expr;
use crate::refs::{PremRef, JustRef, SubRef, PjRef, DepRef, Line};
use crate::seq_facts::{
    lemma_remove_facts, lemma_dedup_facts, lemma_pos_of, lemma_toggle_facts,
    dedup_spec, pos_of, toggle_spec,
};

verus! {

// ---------------------------------------------------------------------------
// Removing a single line
// ---------------------------------------------------------------------------

/// Whether removing `r` is allowed: it must resolve, and its sub-proof must
/// keep at least one premise and at least one line afterwards.
pub open spec fn may_remove_line_spec(p: Proof, r: PjRef) -> bool {
    pj_live(p, r) && match r {
        PjRef::Prem(pr) => sub_at(p, SubRef(prem_at(p, pr).parent)).premises@.len() > 1,
        PjRef::Just(jr) => sub_at(p, SubRef(just_at(p, jr).parent)).lines@.len() > 1,
    }
}

/// Whether the premise or justification `r` may be removed without leaving
/// its sub-proof without premises or without lines.
pub fn may_remove_line(prf: &Proof, r: &PjRef) -> (res: bool)
    requires
        wf(*prf),
    ensures
        res == may_remove_line_spec(*prf, *r),
{
    match r {
        PjRef::Prem(pr) => {
            if pr.0 >= prf.prems.len() {
                return false;
            }
            match &prf.prems[pr.0] {
                Some(pe) => {
                    proof {
                        assert(prem_parent_ok(*prf, pr.0));
                    }
                    prf.subs[pe.parent].as_ref().unwrap().premises.len() > 1
                },
                None => false,
            }
        },
        PjRef::Just(jr) => {
            if jr.0 >= prf.justs.len() {
                return false;
            }
            match &prf.justs[jr.0] {
                Some(je) => {
                    proof {
                        assert(just_parent_ok(*prf, jr.0));
                    }
                    prf.subs[je.parent].as_ref().unwrap().lines.len() > 1
                },
                None => false,
            }
        },
    }
}

/// `p1` is `p0` with the line `r` removed: its slot emptied for good and its
/// entry dropped from its sub-proof's list, everything else untouched.
pub open spec fn line_removed(p0: Proof, p1: Proof, r: PjRef) -> bool {
    match r {
        PjRef::Prem(pr) => {
            let s = prem_at(p0, pr).parent;
            &&& p1.prems@ == p0.prems@.update(pr.0 as int, Option::<Premise>::None)
            &&& p1.justs@ == p0.justs@
            &&& p1.subs@.len() == p0.subs@.len()
            &&& forall|i: int| 0 <= i < p0.subs@.len() && i != s ==> p1.subs@[i] == p0.subs@[i]
            &&& sub_live(p1, SubRef(s))
            &&& sub_at(p1, SubRef(s)).premises@ == sub_at(p0, SubRef(s)).premises@.remove(
                pos_of(sub_at(p0, SubRef(s)).premises@, pr),
            )
            &&& sub_at(p1, SubRef(s)).lines@ == sub_at(p0, SubRef(s)).lines@
            &&& sub_at(p1, SubRef(s)).parent == sub_at(p0, SubRef(s)).parent
        },
        PjRef::Just(jr) => {
            let s = just_at(p0, jr).parent;
            &&& p1.justs@ == p0.justs@.update(jr.0 as int, Option::<JustEntry>::None)
            &&& p1.prems@ == p0.prems@
            &&& p1.subs@.len() == p0.subs@.len()
            &&& forall|i: int| 0 <= i < p0.subs@.len() && i != s ==> p1.subs@[i] == p0.subs@[i]
            &&& sub_live(p1, SubRef(s))
            &&& sub_at(p1, SubRef(s)).lines@ == sub_at(p0, SubRef(s)).lines@.remove(
                pos_of(sub_at(p0, SubRef(s)).lines@, Line::Direct(jr)),
            )
            &&& sub_at(p1, SubRef(s)).premises@ == sub_at(p0, SubRef(s)).premises@
            &&& sub_at(p1, SubRef(s)).parent == sub_at(p0, SubRef(s)).parent
        },
    }
}

proof fn lemma_wf_line_removed(p0: Proof, p1: Proof, r: PjRef)
    requires
        wf(p0),
        pj_live(p0, r),
        line_removed(p0, p1, r),
    ensures
        wf(p1),
{
    let s = match r {
        PjRef::Prem(pr) => prem_at(p0, pr).parent,
        PjRef::Just(jr) => just_at(p0, jr).parent,
    };
    assert(p0.subs@[s as int] is Some) by {
        match r {
            PjRef::Prem(pr) => {
                assert(prem_parent_ok(p0, pr.0));
            },
            PjRef::Just(jr) => {
                assert(just_parent_ok(p0, jr.0));
            },
        }
    }
    assert(sub_entries_ok(p0, s));
    let k = match r {
        PjRef::Prem(pr) => pos_of(sub_at(p0, SubRef(s)).premises@, pr),
        PjRef::Just(jr) => pos_of(sub_at(p0, SubRef(s)).lines@, Line::Direct(jr)),
    };
    match r {
        PjRef::Prem(pr) => {
            let a0 = sub_at(p0, SubRef(s)).premises@;
            assert(prem_parent_ok(p0, pr.0));
            assert(a0.contains(pr));
            let w = choose|w: int| 0 <= w < a0.len() && a0[w] == pr;
            lemma_pos_of(a0, pr, w);
            assert(0 <= k < a0.len() && a0[k] == pr);
            a0.remove_ensures(k);
            lemma_remove_facts(a0, k);
        },
        PjRef::Just(jr) => {
            let l0 = sub_at(p0, SubRef(s)).lines@;
            assert(just_parent_ok(p0, jr.0));
            assert(l0.contains(Line::Direct(jr)));
            let w = choose|w: int| 0 <= w < l0.len() && l0[w] == Line::Direct(jr);
            lemma_pos_of(l0, Line::Direct(jr), w);
            assert(0 <= k < l0.len() && l0[k] == Line::Direct(jr));
            l0.remove_ensures(k);
            lemma_remove_facts(l0, k);
        },
    }

    assert(p1.subs@[0] is Some) by {
        if s != 0 {
            assert(p1.subs@[0] == p0.subs@[0]);
        }
    }

    assert forall|i: usize| i < p1.subs@.len() && (#[trigger] p1.subs@[i as int]) is Some
        implies sub_entries_ok(p1, i) by {
        assert(p0.subs@[i as int] is Some) by {
            if i != s {
                assert(p1.subs@[i as int] == p0.subs@[i as int]);
            }
        }
        assert(sub_entries_ok(p0, i));
        let n0 = sub_at(p0, SubRef(i));
        let n1 = sub_at(p1, SubRef(i));
        if i != s {
            assert(p1.subs@[i as int] == p0.subs@[i as int]);
            assert(n1 == n0);
        }
        assert forall|m: int| 0 <= m < n1.premises@.len()
            implies prem_live(p1, #[trigger] n1.premises@[m])
                && prem_at(p1, n1.premises@[m]).parent == i by {
            let e = n1.premises@[m];
            assert(n0.premises@.contains(e)) by {
                if i == s && (r matches PjRef::Prem(_)) {
                    assert(n1.premises@ == n0.premises@.remove(k));
                } else {
                    assert(n1.premises@ == n0.premises@);
                    assert(n0.premises@[m] == e);
                }
            }
            let m0 = choose|m0: int| 0 <= m0 < n0.premises@.len() && n0.premises@[m0] == e;
            assert(prem_live(p0, e) && prem_at(p0, e).parent == i);
            match r {
                PjRef::Prem(pr) => {
                    if e == pr {
                        assert(prem_at(p0, pr).parent == s);
                        assert(i == s);
                        assert(!n0.premises@.remove(k).contains(pr));
                        assert(n1.premises@ == n0.premises@.remove(k));
                        assert(false);
                    }
                    assert(e.0 != pr.0);
                    assert(p1.prems@[e.0 as int] == p0.prems@[e.0 as int]);
                },
                PjRef::Just(_) => {
                    assert(p1.prems@ == p0.prems@);
                },
            }
        }
        assert(distinct_seq(n1.premises@));
        assert forall|m: int| 0 <= m < n1.lines@.len()
            implies line_ok(p1, i, #[trigger] n1.lines@[m]) by {
            let l = n1.lines@[m];
            assert(n0.lines@.contains(l)) by {
                if i == s && (r matches PjRef::Just(_)) {
                    assert(n1.lines@ == n0.lines@.remove(k));
                } else {
                    assert(n1.lines@ == n0.lines@);
                    assert(n0.lines@[m] == l);
                }
            }
            let m0 = choose|m0: int| 0 <= m0 < n0.lines@.len() && n0.lines@[m0] == l;
            assert(line_ok(p0, i, l));
            match l {
                Line::Direct(jj) => {
                    match r {
                        PjRef::Just(jr) => {
                            if jj == jr {
                                assert(just_at(p0, jr).parent == s);
                                assert(i == s);
                                assert(!n0.lines@.remove(k).contains(Line::Direct(jr)));
                                assert(false);
                            }
                            assert(jj.0 != jr.0);
                            assert(p1.justs@[jj.0 as int] == p0.justs@[jj.0 as int]);
                        },
                        PjRef::Prem(_) => {
                            assert(p1.justs@ == p0.justs@);
                        },
                    }
                },
                Line::Sub(c) => {
                    if c.0 != s {
                        assert(p1.subs@[c.0 as int] == p0.subs@[c.0 as int]);
                    }
                    assert(sub_live(p1, c) && sub_at(p1, c).parent == sub_at(p0, c).parent);
                },
            }
        }
        assert(distinct_seq(n1.lines@));
    }

    assert forall|x: usize| x < p1.prems@.len() && (#[trigger] p1.prems@[x as int]) is Some
        implies prem_parent_ok(p1, x) by {
        assert(p0.prems@[x as int] is Some && p1.prems@[x as int] == p0.prems@[x as int]) by {
            match r {
                PjRef::Prem(pr) => {
                    assert(p1.prems@ == p0.prems@.update(pr.0 as int, Option::<Premise>::None));
                    if x == pr.0 {
                        assert(p1.prems@[x as int] is None);
                        assert(false);
                    }
                },
                PjRef::Just(_) => {},
            }
        }
        assert(prem_parent_ok(p0, x));
        let par = p0.prems@[x as int].unwrap().parent;
        if par == s {
            match r {
                PjRef::Prem(pr) => {
                    assert(PremRef(x) != pr) by {
                        if x == pr.0 {
                            assert(false);
                        }
                    }
                    assert(sub_at(p0, SubRef(s)).premises@.contains(PremRef(x)));
                    assert(sub_at(p1, SubRef(s)).premises@.contains(PremRef(x)));
                },
                PjRef::Just(_) => {
                    assert(sub_at(p1, SubRef(s)).premises@ == sub_at(p0, SubRef(s)).premises@);
                },
            }
        } else {
            assert(p1.subs@[par as int] == p0.subs@[par as int]);
        }
    }

    assert forall|x: usize| x < p1.justs@.len() && (#[trigger] p1.justs@[x as int]) is Some
        implies just_parent_ok(p1, x) by {
        assert(p0.justs@[x as int] is Some && p1.justs@[x as int] == p0.justs@[x as int]) by {
            match r {
                PjRef::Just(jr) => {
                    assert(p1.justs@ == p0.justs@.update(jr.0 as int, Option::<JustEntry>::None));
                    if x == jr.0 {
                        assert(p1.justs@[x as int] is None);
                        assert(false);
                    }
                },
                PjRef::Prem(_) => {},
            }
        }
        assert(just_parent_ok(p0, x));
        let par = p0.justs@[x as int].unwrap().parent;
        if par == s {
            match r {
                PjRef::Just(jr) => {
                    assert(Line::Direct(JustRef(x)) != Line::Direct(jr)) by {
                        if x == jr.0 {
                            assert(false);
                        }
                    }
                    assert(sub_at(p0, SubRef(s)).lines@.contains(Line::Direct(JustRef(x))));
                    assert(sub_at(p1, SubRef(s)).lines@.contains(Line::Direct(JustRef(x))));
                },
                PjRef::Prem(_) => {
                    assert(sub_at(p1, SubRef(s)).lines@ == sub_at(p0, SubRef(s)).lines@);
                },
            }
        } else {
            assert(p1.subs@[par as int] == p0.subs@[par as int]);
        }
    }

    assert forall|x: usize| x < p1.subs@.len() && (#[trigger] p1.subs@[x as int]) is Some
        implies sub_parent_ok(p1, x) by {
        assert(p0.subs@[x as int] is Some) by {
            if x != s {
                assert(p1.subs@[x as int] == p0.subs@[x as int]);
            }
        }
        assert(sub_parent_ok(p0, x));
        assert(sub_at(p1, SubRef(x)).parent == sub_at(p0, SubRef(x)).parent) by {
            if x != s {
                assert(p1.subs@[x as int] == p0.subs@[x as int]);
            }
        }
        if x != 0 {
            let par = sub_at(p0, SubRef(x)).parent.unwrap();
            if par.0 == s {
                match r {
                    PjRef::Just(jr) => {
                        assert(sub_at(p0, par).lines@.contains(Line::Sub(SubRef(x))));
                        assert(Line::Sub(SubRef(x)) != Line::Direct(jr));
                        assert(sub_at(p1, par).lines@.contains(Line::Sub(SubRef(x))));
                    },
                    PjRef::Prem(_) => {
                        assert(sub_at(p1, par).lines@ == sub_at(p0, par).lines@);
                    },
                }
            } else {
                assert(p1.subs@[par.0 as int] == p0.subs@[par.0 as int]);
            }
        }
    }
}

impl Proof {
    /// Removes the premise or justification `r`. Refused — leaving the
    /// document exactly as it was — when `r` is stale or when its sub-proof
    /// would be left without premises or without lines.
    pub fn remove_line(&mut self, r: &PjRef) -> (res: bool)
        requires
            wf(*old(self)),
        ensures
            wf(*final(self)),
            res == may_remove_line_spec(*old(self), *r),
            !res ==> *final(self) == *old(self),
            res ==> line_removed(*old(self), *final(self), *r),
            res ==> !pj_live(*final(self), *r),
    {
        if !may_remove_line(self, r) {
            return false;
        }
        match r {
            PjRef::Prem(pr) => {
                let s = match &self.prems[pr.0] {
                    Some(pe) => pe.parent,
                    None => {
                        proof {
                            assert(false);
                        }
                        return false;
                    },
                };
                proof {
                    assert(prem_parent_ok(*self, pr.0));
                    assert(sub_entries_ok(*self, s));
                }
                let k = match self.premise_pos(s, pr) {
                    Some(k) => k,
                    None => {
                        proof {
                            assert(false);
                        }
                        return false;
                    },
                };
                proof {
                    lemma_pos_of(sub_at(*self, SubRef(s)).premises@, *pr, k as int);
                }
                let mut node = self.subs.remove(s).unwrap();
                node.premises.remove(k);
                self.subs.insert(s, Some(node));
                self.prems.set(pr.0, None);
                proof {
                    let p0 = *old(self);
                    let p1 = *self;
                    assert(p1.subs@ =~= p0.subs@.update(s as int, p1.subs@[s as int]));
                    assert(line_removed(p0, p1, *r));
                    lemma_wf_line_removed(p0, p1, *r);
                }
                true
            },
            PjRef::Just(jr) => {
                let s = match &self.justs[jr.0] {
                    Some(je) => je.parent,
                    None => {
                        proof {
                            assert(false);
                        }
                        return false;
                    },
                };
                proof {
                    assert(just_parent_ok(*self, jr.0));
                    assert(sub_entries_ok(*self, s));
                }
                let k = match self.line_pos(s, Line::Direct(*jr)) {
                    Some(k) => k,
                    None => {
                        proof {
                            assert(false);
                        }
                        return false;
                    },
                };
                proof {
                    lemma_pos_of(sub_at(*self, SubRef(s)).lines@, Line::Direct(*jr), k as int);
                }
                let mut node = self.subs.remove(s).unwrap();
                node.lines.remove(k);
                self.subs.insert(s, Some(node));
                self.justs.set(jr.0, None);
                proof {
                    let p0 = *old(self);
                    let p1 = *self;
                    assert(p1.subs@ =~= p0.subs@.update(s as int, p1.subs@[s as int]));
                    assert(line_removed(p0, p1, *r));
                    lemma_wf_line_removed(p0, p1, *r);
                }
                true
            },
        }
    }
}

// ---------------------------------------------------------------------------
// Rewriting one entity in place
// ---------------------------------------------------------------------------

/// Rewrites that change what entities contain but neither liveness, parents
/// nor any sub-proof node keep the document well formed.
proof fn lemma_wf_entity_rewritten(p0: Proof, p1: Proof)
    requires
        wf(p0),
        p1.subs@ == p0.subs@,
        p1.prems@.len() == p0.prems@.len(),
        p1.justs@.len() == p0.justs@.len(),
        forall|x: usize| x < p0.prems@.len()
            ==> ((#[trigger] p1.prems@[x as int]) is Some <==> p0.prems@[x as int] is Some),
        forall|x: usize| x < p0.prems@.len() && (#[trigger] p1.prems@[x as int]) is Some
            ==> p1.prems@[x as int].unwrap().parent == p0.prems@[x as int].unwrap().parent,
        forall|x: usize| x < p0.justs@.len()
            ==> ((#[trigger] p1.justs@[x as int]) is Some <==> p0.justs@[x as int] is Some),
        forall|x: usize| x < p0.justs@.len() && (#[trigger] p1.justs@[x as int]) is Some
            ==> p1.justs@[x as int].unwrap().parent == p0.justs@[x as int].unwrap().parent
                && distinct_seq(p1.justs@[x as int].unwrap().just.deps@)
                && distinct_seq(p1.justs@[x as int].unwrap().just.sdeps@),
    ensures
        wf(p1),
{
    assert forall|i: usize| i < p1.subs@.len() && (#[trigger] p1.subs@[i as int]) is Some
        implies sub_entries_ok(p1, i) by {
        assert(sub_entries_ok(p0, i));
        let n = sub_at(p1, SubRef(i));
        assert(n == sub_at(p0, SubRef(i)));
        assert forall|m: int| 0 <= m < n.premises@.len()
            implies prem_live(p1, #[trigger] n.premises@[m])
                && prem_at(p1, n.premises@[m]).parent == i by {
            let e = n.premises@[m];
            assert(prem_live(p0, e) && prem_at(p0, e).parent == i);
        }
        assert forall|m: int| 0 <= m < n.lines@.len()
            implies line_ok(p1, i, #[trigger] n.lines@[m]) by {
            assert(line_ok(p0, i, n.lines@[m]));
            match n.lines@[m] {
                Line::Direct(j) => {
                    assert(just_live(p0, j));
                },
                Line::Sub(c) => {
                    assert(sub_live(p0, c));
                },
            }
        }
    }
    assert forall|x: usize| x < p1.prems@.len() && (#[trigger] p1.prems@[x as int]) is Some
        implies prem_parent_ok(p1, x) by {
        assert(p0.prems@[x as int] is Some);
        assert(prem_parent_ok(p0, x));
    }
    assert forall|x: usize| x < p1.justs@.len() && (#[trigger] p1.justs@[x as int]) is Some
        implies just_parent_ok(p1, x) by {
        assert(p0.justs@[x as int] is Some);
        assert(just_parent_ok(p0, x));
    }
    assert forall|x: usize| x < p1.subs@.len() && (#[trigger] p1.subs@[x as int]) is Some
        implies sub_parent_ok(p1, x) by {
        assert(sub_parent_ok(p0, x));
    }
}

/// `p1` is `p0` with premise `r`'s formula replaced by `e2`.
pub open spec fn premise_rewritten(p0: Proof, p1: Proof, r: PremRef, e2: Expr) -> bool {
    &&& p1.prems@ == p0.prems@.update(
        r.0 as int,
        Some(Premise { expr: e2, parent: prem_at(p0, r).parent }),
    )
    &&& p1.justs@ == p0.justs@
    &&& p1.subs@ == p0.subs@
}

/// Two justifications carrying the same data.
pub open spec fn just_like(a: Justification, b: Justification) -> bool {
    &&& a.conclusion == b.conclusion
    &&& a.rule == b.rule
    &&& a.deps@ == b.deps@
    &&& a.sdeps@ == b.sdeps@
}

/// `p1` is `p0` with justification `r`'s data replaced by `nj`, its citation
/// lists de-duplicated, its owner unchanged.
pub open spec fn step_rewritten(p0: Proof, p1: Proof, jr: JustRef, nj: Justification) -> bool {
    &&& p1.prems@ == p0.prems@
    &&& p1.subs@ == p0.subs@
    &&& p1.justs@.len() == p0.justs@.len()
    &&& forall|x: int| 0 <= x < p0.justs@.len() && x != jr.0 ==> p1.justs@[x] == p0.justs@[x]
    &&& just_live(p1, jr)
    &&& just_at(p1, jr).parent == just_at(p0, jr).parent
    &&& just_at(p1, jr).just.conclusion == nj.conclusion
    &&& just_at(p1, jr).just.rule == nj.rule
    &&& just_at(p1, jr).just.deps@ == dedup_spec(nj.deps@)
    &&& just_at(p1, jr).just.sdeps@ == dedup_spec(nj.sdeps@)
}

/// `p1` is `p0` with justification `jr`'s rule replaced by `rule` and
/// nothing else changed.
pub open spec fn rule_set(p0: Proof, p1: Proof, jr: JustRef, rule: crate::rules::Rule) -> bool {
    &&& p1.prems@ == p0.prems@
    &&& p1.subs@ == p0.subs@
    &&& p1.justs@.len() == p0.justs@.len()
    &&& forall|x: int| 0 <= x < p0.justs@.len() && x != jr.0 ==> p1.justs@[x] == p0.justs@[x]
    &&& just_live(p1, jr)
    &&& just_at(p1, jr).parent == just_at(p0, jr).parent
    &&& just_at(p1, jr).just.conclusion == just_at(p0, jr).just.conclusion
    &&& just_at(p1, jr).just.rule == rule
    &&& just_at(p1, jr).just.deps@ == just_at(p0, jr).just.deps@
    &&& just_at(p1, jr).just.sdeps@ == just_at(p0, jr).just.sdeps@
}

/// `p1` is `p0` with one citation of justification `jr` toggled: dropped if
/// it was cited, appended if it was not.
pub open spec fn dependency_toggled(p0: Proof, p1: Proof, jr: JustRef, dep: DepRef) -> bool {
    &&& p1.prems@ == p0.prems@
    &&& p1.subs@ == p0.subs@
    &&& p1.justs@.len() == p0.justs@.len()
    &&& forall|x: int| 0 <= x < p0.justs@.len() && x != jr.0 ==> p1.justs@[x] == p0.justs@[x]
    &&& just_live(p1, jr)
    &&& just_at(p1, jr).parent == just_at(p0, jr).parent
    &&& just_at(p1, jr).just.conclusion == just_at(p0, jr).just.conclusion
    &&& just_at(p1, jr).just.rule == just_at(p0, jr).just.rule
    &&& match dep {
        DepRef::Line(d) => just_at(p1, jr).just.deps@ == toggle_spec(
            just_at(p0, jr).just.deps@,
            d,
        ) && just_at(p1, jr).just.sdeps@ == just_at(p0, jr).just.sdeps@,
        DepRef::Sub(x) => just_at(p1, jr).just.sdeps@ == toggle_spec(
            just_at(p0, jr).just.sdeps@,
            x,
        ) && just_at(p1, jr).just.deps@ == just_at(p0, jr).just.deps@,
    }
}

/// A copy of `v` with the first occurrence of `d` removed, or with `d`
/// appended if it is absent.
fn toggle_pjref_vec(v: &Vec<PjRef>, d: &PjRef) -> (r: Vec<PjRef>)
    ensures
        r@ == toggle_spec(v@, *d),
{
    let mut out: Vec<PjRef> = Vec::new();
    let mut i: usize = 0;
    while i < v.len()
        invariant
            i <= v@.len(),
            out@ == v@.take(i as int),
        decreases v@.len() - i,
    {
        out.push(v[i]);
        proof {
            assert(out@ =~= v@.take(i as int + 1));
        }
        i += 1;
    }
    proof {
        assert(out@ =~= v@);
    }
    let mut k: usize = 0;
    while k < out.len()
        invariant
            out@ == v@,
            k <= v@.len(),
            forall|m: int| 0 <= m < k ==> v@[m] != *d,
        decreases v@.len() - k,
    {
        if out[k] == *d {
            proof {
                v@.index_of_first_ensures(*d);
                assert(v@.contains(*d));
                let w = v@.index_of_first(*d).unwrap();
                if w < k as int {
                    assert(v@[w] != *d);
                    assert(false);
                }
                if w > k as int {
                    assert(v@[k as int] != *d);
                    assert(false);
                }
                assert(toggle_spec(v@, *d) == v@.remove(k as int));
            }
            out.remove(k);
            return out;
        }
        k += 1;
    }
    proof {
        assert(!v@.contains(*d)) by {
            if v@.contains(*d) {
                let w = choose|w: int| 0 <= w < v@.len() && v@[w] == *d;
                assert(v@[w] != *d);
            }
        }
    }
    out.push(*d);
    out
}

/// A copy of `v` with the first occurrence of `d` removed, or with `d`
/// appended if it is absent.
fn toggle_subref_vec(v: &Vec<SubRef>, d: &SubRef) -> (r: Vec<SubRef>)
    ensures
        r@ == toggle_spec(v@, *d),
{
    let mut out: Vec<SubRef> = Vec::new();
    let mut i: usize = 0;
    while i < v.len()
        invariant
            i <= v@.len(),
            out@ == v@.take(i as int),
        decreases v@.len() - i,
    {
        out.push(v[i]);
        proof {
            assert(out@ =~= v@.take(i as int + 1));
        }
        i += 1;
    }
    proof {
        assert(out@ =~= v@);
    }
    let mut k: usize = 0;
    while k < out.len()
        invariant
            out@ == v@,
            k <= v@.len(),
            forall|m: int| 0 <= m < k ==> v@[m] != *d,
        decreases v@.len() - k,
    {
        if out[k] == *d {
            proof {
                v@.index_of_first_ensures(*d);
                assert(v@.contains(*d));
                let w = v@.index_of_first(*d).unwrap();
                if w < k as int {
                    assert(v@[w] != *d);
                    assert(false);
                }
                if w > k as int {
                    assert(v@[k as int] != *d);
                    assert(false);
                }
                assert(toggle_spec(v@, *d) == v@.remove(k as int));
            }
            out.remove(k);
            return out;
        }
        k += 1;
    }
    proof {
        assert(!v@.contains(*d)) by {
            if v@.contains(*d) {
                let w = choose|w: int| 0 <= w < v@.len() && v@[w] == *d;
                assert(v@[w] != *d);
            }
        }
    }
    out.push(*d);
    out
}

impl Proof {
    /// Replaces the rule of justification `jr`; refused for a stale `jr`,
    /// with the document untouched.
    pub fn set_rule(&mut self, jr: &JustRef, rule: crate::rules::Rule) -> (res: bool)
        requires
            wf(*old(self)),
        ensures
            wf(*final(self)),
            !just_live(*old(self), *jr) ==> !res && *final(self) == *old(self),
            just_live(*old(self), *jr) ==> res && rule_set(*old(self), *final(self), *jr, rule),
    {
        if jr.0 >= self.justs.len() {
            return false;
        }
        if self.justs[jr.0].is_none() {
            return false;
        }
        proof {
            assert(just_parent_ok(*self, jr.0));
        }
        let entry = self.justs.remove(jr.0).unwrap();
        let par = entry.parent;
        let jst = entry.just;
        let nj = Justification {
            conclusion: jst.conclusion,
            rule,
            deps: jst.deps,
            sdeps: jst.sdeps,
        };
        self.justs.insert(jr.0, Some(JustEntry { just: nj, parent: par }));
        proof {
            let p0 = *old(self);
            let p1 = *self;
            assert(p1.justs@ =~= p0.justs@.update(jr.0 as int, p1.justs@[jr.0 as int]));
            assert(rule_set(p0, p1, *jr, rule));
            assert forall|x: usize| x < p0.justs@.len() && (#[trigger] p1.justs@[x as int]) is Some
                implies p1.justs@[x as int].unwrap().parent == p0.justs@[x as int].unwrap().parent
                    && distinct_seq(p1.justs@[x as int].unwrap().just.deps@)
                    && distinct_seq(p1.justs@[x as int].unwrap().just.sdeps@) by {
                assert(p0.justs@[x as int] is Some) by {
                    if x != jr.0 {
                        assert(p1.justs@[x as int] == p0.justs@[x as int]);
                    }
                }
                assert(just_parent_ok(p0, x));
                if x != jr.0 {
                    assert(p1.justs@[x as int] == p0.justs@[x as int]);
                }
            }
            lemma_wf_entity_rewritten(p0, p1);
        }
        true
    }

    /// Adds the citation `dep` to the justification `jr` if it is not cited,
    /// and drops it if it is; refused for a stale `jr`, with the document
    /// untouched.
    pub fn toggle_dependency(&mut self, jr: &JustRef, dep: &DepRef) -> (res: bool)
        requires
            wf(*old(self)),
        ensures
            wf(*final(self)),
            !just_live(*old(self), *jr) ==> !res && *final(self) == *old(self),
            just_live(*old(self), *jr) ==> res && dependency_toggled(
                *old(self),
                *final(self),
                *jr,
                *dep,
            ),
    {
        if jr.0 >= self.justs.len() {
            return false;
        }
        if self.justs[jr.0].is_none() {
            return false;
        }
        proof {
            assert(just_parent_ok(*self, jr.0));
        }
        let entry = self.justs.remove(jr.0).unwrap();
        let par = entry.parent;
        let jst = entry.just;
        let (nd, ns) = match dep {
            DepRef::Line(d) => (toggle_pjref_vec(&jst.deps, d), jst.sdeps),
            DepRef::Sub(x) => (jst.deps, toggle_subref_vec(&jst.sdeps, x)),
        };
        let nj = Justification { conclusion: jst.conclusion, rule: jst.rule, deps: nd, sdeps: ns };
        self.justs.insert(jr.0, Some(JustEntry { just: nj, parent: par }));
        proof {
            let p0 = *old(self);
            let p1 = *self;
            assert(p1.justs@ =~= p0.justs@.update(jr.0 as int, p1.justs@[jr.0 as int]));
            match dep {
                DepRef::Line(d) => {
                    lemma_toggle_facts(just_at(p0, *jr).just.deps@, *d);
                },
                DepRef::Sub(x) => {
                    lemma_toggle_facts(just_at(p0, *jr).just.sdeps@, *x);
                },
            }
            assert(dependency_toggled(p0, p1, *jr, *dep));
            assert forall|x: usize| x < p0.justs@.len() && (#[trigger] p1.justs@[x as int]) is Some
                implies p1.justs@[x as int].unwrap().parent == p0.justs@[x as int].unwrap().parent
                    && distinct_seq(p1.justs@[x as int].unwrap().just.deps@)
                    && distinct_seq(p1.justs@[x as int].unwrap().just.sdeps@) by {
                assert(p0.justs@[x as int] is Some) by {
                    if x != jr.0 {
                        assert(p1.justs@[x as int] == p0.justs@[x as int]);
                    }
                }
                assert(just_parent_ok(p0, x));
                if x != jr.0 {
                    assert(p1.justs@[x as int] == p0.justs@[x as int]);
                }
            }
            lemma_wf_entity_rewritten(p0, p1);
        }
        true
    }

    /// Hands the formula of premise `r` to `f` and stores the formula `f`
    /// returns, handing `f`'s other result back; refused for a stale `r`.
    /// Nothing else in the document is touched.
    pub fn with_mut_premise<R, F: FnOnce(Expr) -> (Expr, R)>(&mut self, r: &PremRef, f: F) -> (res:
        Option<R>)
        requires
            wf(*old(self)),
            forall|e: Expr| #[trigger] f.requires((e,)),
        ensures
            wf(*final(self)),
            !prem_live(*old(self), *r) ==> res is None && *final(self) == *old(self),
            prem_live(*old(self), *r) ==> res is Some && (exists|out: (Expr, R)|
                #[trigger] f.ensures((prem_at(*old(self), *r).expr,), out) && res == Some(out.1)
                    && premise_rewritten(*old(self), *final(self), *r, out.0)),
    {
        if r.0 >= self.prems.len() {
            return None;
        }
        let (e0, par) = match &self.prems[r.0] {
            Some(pe) => (pe.expr.duplicate(), pe.parent),
            None => {
                return None;
            },
        };
        let (e2, rv) = f(e0);
        self.prems.set(r.0, Some(Premise { expr: e2, parent: par }));
        proof {
            let p0 = *old(self);
            let p1 = *self;
            assert(f.ensures((prem_at(p0, *r).expr,), (e2, rv)));
            assert(premise_rewritten(p0, p1, *r, e2));
            assert forall|x: usize| x < p0.justs@.len() && (#[trigger] p1.justs@[x as int]) is Some
                implies p1.justs@[x as int].unwrap().parent == p0.justs@[x as int].unwrap().parent
                    && distinct_seq(p1.justs@[x as int].unwrap().just.deps@)
                    && distinct_seq(p1.justs@[x as int].unwrap().just.sdeps@) by {
                assert(just_parent_ok(p0, x));
            }
            lemma_wf_entity_rewritten(p0, p1);
        }
        Some(rv)
    }

    /// Hands a copy of justification `r`'s data to `f` and stores what `f`
    /// returns, citation lists de-duplicated, handing `f`'s other result
    /// back; refused for a stale `r`. The step keeps its place and owner.
    pub fn with_mut_step<R, F: FnOnce(Justification) -> (Justification, R)>(
        &mut self,
        r: &JustRef,
        f: F,
    ) -> (res: Option<R>)
        requires
            wf(*old(self)),
            forall|j: Justification| #[trigger] f.requires((j,)),
        ensures
            wf(*final(self)),
            !just_live(*old(self), *r) ==> res is None && *final(self) == *old(self),
            just_live(*old(self), *r) ==> res is Some && (exists|
                inp: Justification,
                out: (Justification, R),
            |
                just_like(inp, just_at(*old(self), *r).just) && #[trigger] f.ensures((inp,), out)
                    && res == Some(out.1) && step_rewritten(
                    *old(self),
                    *final(self),
                    *r,
                    out.0,
                )),
    {
        if r.0 >= self.justs.len() {
            return None;
        }
        let (j0, par) = match &self.justs[r.0] {
            Some(je) => (je.just.duplicate(), je.parent),
            None => {
                return None;
            },
        };
        let ghost inp = j0;
        let (j2, rv) = f(j0);
        let ghost out = (j2, rv);
        let nd = crate::mutate::dedup_pjrefs(&j2.deps);
        let ns = crate::mutate::dedup_subrefs(&j2.sdeps);
        let nj = Justification { conclusion: j2.conclusion, rule: j2.rule, deps: nd, sdeps: ns };
        self.justs.set(r.0, Some(JustEntry { just: nj, parent: par }));
        proof {
            let p0 = *old(self);
            let p1 = *self;
            assert(just_like(inp, just_at(p0, *r).just));
            assert(f.ensures((inp,), out));
            lemma_dedup_facts(out.0.deps@);
            lemma_dedup_facts(out.0.sdeps@);
            assert(step_rewritten(p0, p1, *r, out.0));
            assert forall|x: usize| x < p0.justs@.len() && (#[trigger] p1.justs@[x as int]) is Some
                implies p1.justs@[x as int].unwrap().parent == p0.justs@[x as int].unwrap().parent
                    && distinct_seq(p1.justs@[x as int].unwrap().just.deps@)
                    && distinct_seq(p1.justs@[x as int].unwrap().just.sdeps@) by {
                assert(p0.justs@[x as int] is Some) by {
                    if x != r.0 {
                        assert(p1.justs@[x as int] == p0.justs@[x as int]);
                    }
                }
                assert(just_parent_ok(p0, x));
                if x != r.0 {
                    assert(p1.justs@[x as int] == p0.justs@[x as int]);
                }
            }
            lemma_wf_entity_rewritten(p0, p1);
        }
        Some(rv)
    }
}

} // verus!
