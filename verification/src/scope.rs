//! The visibility rule for dependency citations: a justification may cite
//! earlier premises and direct lines of its own or an enclosing sub-proof,
//! and a whole closed sub-proof whose line precedes it in such a scope.
//! Internals of a closed sub-proof are not citable directly from outside.

use vstd::prelude::*;
use crate::document::{
    Proof, prem_live, prem_at, just_live, just_at, sub_live, sub_at,
    sub_entries_ok, just_parent_ok, sub_parent_ok,
    in_subtree, chain_child, lemma_chain_child, wf,
};
use crate::refs::{JustRef, SubRef, PjRef, DepRef, Line};
use crate::seq_facts::{pos_of, lemma_pos_of};

verus! {

/// The position in ancestor sub-proof `sd`'s line sequence from which the
/// justification `jr` sees `sd`'s lines: the index of its own line when `sd`
/// owns `jr`, else the index of the line of the sub-proof its scope chain
/// passes through.
pub open spec fn view_pos(p: Proof, sd: usize, jr: JustRef) -> int {
    let sc = just_at(p, jr).parent;
    if sc == sd {
        pos_of(sub_at(p, SubRef(sd)).lines@, Line::Direct(jr))
    } else {
        pos_of(sub_at(p, SubRef(sd)).lines@, Line::Sub(SubRef(chain_child(p, sc, sd))))
    }
}

/// Whether the line `citing` may cite `dep`: `citing` must be a live
/// justification; a premise is citable from its own or a nested sub-proof; a
/// direct line must be an earlier line of an enclosing sub-proof; a
/// sub-proof range must be a whole, earlier sub-proof hanging off an
/// enclosing one. A stale citation is never in scope.
pub open spec fn can_ref_spec(p: Proof, citing: PjRef, dep: DepRef) -> bool {
    match citing {
        PjRef::Prem(_) => false,
        PjRef::Just(jr) => just_live(p, jr) && {
            let sc = just_at(p, jr).parent;
            match dep {
                DepRef::Line(PjRef::Prem(pr)) => prem_live(p, pr) && in_subtree(
                    p,
                    sc,
                    prem_at(p, pr).parent,
                ),
                DepRef::Line(PjRef::Just(dj)) => just_live(p, dj) && {
                    let sd = just_at(p, dj).parent;
                    in_subtree(p, sc, sd) && pos_of(
                        sub_at(p, SubRef(sd)).lines@,
                        Line::Direct(dj),
                    ) < view_pos(p, sd, jr)
                },
                DepRef::Sub(x) => sub_live(p, x) && x.0 != 0 && {
                    let px = sub_at(p, x).parent.unwrap().0;
                    in_subtree(p, sc, px) && pos_of(
                        sub_at(p, SubRef(px)).lines@,
                        Line::Sub(x),
                    ) < view_pos(p, px, jr)
                },
            }
        },
    }
}

impl Proof {
    /// Whether sub-proof `x` lies within the subtree of sub-proof `s`.
    fn in_subtree_x(&self, x: usize, s: usize) -> (r: bool)
        ensures
            r == in_subtree(*self, x, s),
        decreases x,
    {
        if x == s {
            true
        } else if x >= self.subs.len() {
            false
        } else {
            match &self.subs[x] {
                None => false,
                Some(node) => match node.parent {
                    None => false,
                    Some(pp) => pp.0 < x && self.in_subtree_x(pp.0, s),
                },
            }
        }
    }

    /// The child of `a` that the parent chain from `x` passes through.
    fn chain_child_x(&self, x: usize, a: usize) -> (r: usize)
        ensures
            r == chain_child(*self, x, a),
        decreases x,
    {
        if x >= self.subs.len() {
            return x;
        }
        match &self.subs[x] {
            None => x,
            Some(node) => match node.parent {
                None => x,
                Some(pp) => if pp.0 == a {
                    x
                } else if pp.0 < x {
                    self.chain_child_x(pp.0, a)
                } else {
                    x
                },
            },
        }
    }

    /// The index in `sd`'s line sequence from which `jr` sees `sd`.
    fn view_pos_x(&self, sd: usize, jr: &JustRef) -> (r: usize)
        requires
            wf(*self),
            just_live(*self, *jr),
            sub_live(*self, SubRef(sd)),
            in_subtree(*self, just_at(*self, *jr).parent, sd),
        ensures
            r as int == view_pos(*self, sd, *jr),
    {
        let sc = self.justs[jr.0].as_ref().unwrap().parent;
        proof {
            assert(just_parent_ok(*self, jr.0));
            assert(sub_entries_ok(*self, sd));
        }
        if sc == sd {
            let k = match self.line_pos(sd, Line::Direct(*jr)) {
                Some(k) => k,
                None => {
                    proof {
                        assert(false);
                    }
                    0
                },
            };
            proof {
                lemma_pos_of(sub_at(*self, SubRef(sd)).lines@, Line::Direct(*jr), k as int);
            }
            k
        } else {
            proof {
                lemma_chain_child(*self, sc, sd);
            }
            let cc = self.chain_child_x(sc, sd);
            proof {
                assert(sub_parent_ok(*self, cc));
            }
            let k = match self.line_pos(sd, Line::Sub(SubRef(cc))) {
                Some(k) => k,
                None => {
                    proof {
                        assert(false);
                    }
                    0
                },
            };
            proof {
                lemma_pos_of(sub_at(*self, SubRef(sd)).lines@, Line::Sub(SubRef(cc)), k as int);
            }
            k
        }
    }

    /// Whether the line `citing` may cite `dep` under the visibility rule.
    pub fn can_reference_dep(&self, citing: &PjRef, dep: &DepRef) -> (r: bool)
        requires
            wf(*self),
        ensures
            r == can_ref_spec(*self, *citing, *dep),
    {
        let jr = match citing {
            PjRef::Just(jr) => jr,
            PjRef::Prem(_) => {
                return false;
            },
        };
        if jr.0 >= self.justs.len() {
            return false;
        }
        let sc = match &self.justs[jr.0] {
            Some(e) => e.parent,
            None => {
                return false;
            },
        };
        match dep {
            DepRef::Line(PjRef::Prem(pr)) => {
                if pr.0 >= self.prems.len() {
                    return false;
                }
                match &self.prems[pr.0] {
                    Some(pe) => self.in_subtree_x(sc, pe.parent),
                    None => false,
                }
            },
            DepRef::Line(PjRef::Just(dj)) => {
                if dj.0 >= self.justs.len() {
                    return false;
                }
                let sd = match &self.justs[dj.0] {
                    Some(e) => e.parent,
                    None => {
                        return false;
                    },
                };
                if !self.in_subtree_x(sc, sd) {
                    return false;
                }
                proof {
                    assert(just_parent_ok(*self, dj.0));
                    assert(sub_entries_ok(*self, sd));
                }
                let dpos = match self.line_pos(sd, Line::Direct(*dj)) {
                    Some(k) => k,
                    None => {
                        proof {
                            assert(false);
                        }
                        return false;
                    },
                };
                proof {
                    lemma_pos_of(sub_at(*self, SubRef(sd)).lines@, Line::Direct(*dj), dpos as int);
                }
                let vpos = self.view_pos_x(sd, jr);
                dpos < vpos
            },
            DepRef::Sub(x) => {
                if x.0 == 0 || x.0 >= self.subs.len() {
                    return false;
                }
                let px = match &self.subs[x.0] {
                    Some(node) => match node.parent {
                        Some(pp) => pp.0,
                        None => {
                            proof {
                                assert(sub_parent_ok(*self, x.0));
                                assert(false);
                            }
                            return false;
                        },
                    },
                    None => {
                        return false;
                    },
                };
                if !self.in_subtree_x(sc, px) {
                    return false;
                }
                proof {
                    assert(sub_parent_ok(*self, x.0));
                    assert(sub_entries_ok(*self, px));
                }
                let spos = match self.line_pos(px, Line::Sub(*x)) {
                    Some(k) => k,
                    None => {
                        proof {
                            assert(false);
                        }
                        return false;
                    },
                };
                proof {
                    lemma_pos_of(sub_at(*self, SubRef(px)).lines@, Line::Sub(*x), spos as int);
                }
                let vpos = self.view_pos_x(px, jr);
                spos < vpos
            },
        }
    }
}

} // verus!
