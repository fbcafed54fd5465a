//! The verification engine: resolves a justification's citations to the
//! expressions they stand for, rejecting any out-of-scope or stale citation,
//! and delegates the logical verdict to the cited rule. Verification never
//! mutates the document, and its result is a function of the document and
//! the reference alone, so repeated calls agree.

use vstd::prelude::*;
use crate::document::{
    Proof, prem_live, prem_at, just_live, just_at, sub_live, sub_at, pj_expr,
    sub_entries_ok, wf,
};
use crate::expr::Expr;
use crate::refs::{JustRef, SubRef, PjRef, DepRef, Line, PremRef};
use crate::rules::{RuleMismatch, ResolvedSubproof, check_rule, check_rule_spec};
use crate::scope::can_ref_spec;

verus! {

/// Why a line failed verification.
#[derive(Debug, PartialEq, Eq)]
pub enum VerifyError {
    /// The reference handed to the engine no longer resolves.
    DanglingRef,
    /// A direct-line citation is stale or not visible from the citing line.
    OutOfScopeLineDep,
    /// A sub-proof-range citation is stale or not visible from the citing
    /// line.
    OutOfScopeSubproofDep,
    /// The citations resolve, but the rule rejects the conclusion.
    Mismatch(RuleMismatch),
}

/// The expressions a justification's direct citations stand for.
pub open spec fn dep_exprs_spec(p: Proof, deps: Seq<PjRef>) -> Seq<Expr> {
    deps.map_values(|d: PjRef| pj_expr(p, d))
}

/// The expressions of a sub-proof's assumptions.
pub open spec fn sub_prem_exprs(p: Proof, x: SubRef) -> Seq<Expr> {
    sub_at(p, x).premises@.map_values(|pr: PremRef| prem_at(p, pr).expr)
}

/// The conclusions of the direct lines among `lines`, in order.
pub open spec fn direct_concls(p: Proof, lines: Seq<Line>) -> Seq<Expr>
    decreases lines.len(),
{
    if lines.len() == 0 {
        Seq::empty()
    } else {
        let rest = direct_concls(p, lines.drop_last());
        match lines.last() {
            Line::Direct(j) => rest.push(just_at(p, j).just.conclusion),
            Line::Sub(_) => rest,
        }
    }
}

/// What a sub-proof-range citation stands for: the cited sub-proof's
/// assumptions and the conclusions of its own direct lines.
pub open spec fn sdep_summary(p: Proof, x: SubRef) -> (Seq<Expr>, Seq<Expr>) {
    (sub_prem_exprs(p, x), direct_concls(p, sub_at(p, x).lines@))
}

/// The resolved contents of all sub-proof-range citations.
pub open spec fn sdep_summaries(p: Proof, sdeps: Seq<SubRef>) -> Seq<(Seq<Expr>, Seq<Expr>)> {
    sdeps.map_values(|x: SubRef| sdep_summary(p, x))
}

/// Pointwise-resolved summaries assemble into `sdep_summaries`.
proof fn lemma_summaries_from_parts(p: Proof, xs: Seq<SubRef>, rs: Seq<ResolvedSubproof>)
    requires
        rs.len() == xs.len(),
        forall|m: int| 0 <= m < xs.len() ==> (#[trigger] rs[m]).sm() == sdep_summary(p, xs[m]),
    ensures
        rs.map_values(|s2: ResolvedSubproof| s2.sm()) == sdep_summaries(p, xs),
{
    let lhs = rs.map_values(|s2: ResolvedSubproof| s2.sm());
    let rhs = sdep_summaries(p, xs);
    assert(lhs.len() == rhs.len());
    assert forall|m: int| 0 <= m < lhs.len() implies lhs[m] == rhs[m] by {
        assert(lhs[m] == rs[m].sm());
        assert(rhs[m] == sdep_summary(p, xs[m]));
    }
    assert(lhs =~= rhs);
}

/// Every direct citation of `jr` is in scope.
pub open spec fn all_deps_ok(p: Proof, jr: JustRef) -> bool {
    forall|k: int| 0 <= k < just_at(p, jr).just.deps@.len() ==> can_ref_spec(
        p,
        PjRef::Just(jr),
        DepRef::Line(#[trigger] just_at(p, jr).just.deps@[k]),
    )
}

/// Every sub-proof-range citation of `jr` is in scope.
pub open spec fn all_sdeps_ok(p: Proof, jr: JustRef) -> bool {
    forall|k: int| 0 <= k < just_at(p, jr).just.sdeps@.len() ==> can_ref_spec(
        p,
        PjRef::Just(jr),
        DepRef::Sub(#[trigger] just_at(p, jr).just.sdeps@[k]),
    )
}

/// The engine's verdict on line `r`: a premise is valid by fiat; a
/// justification is checked by resolving its citations and asking its rule;
/// a stale reference and any out-of-scope citation are explicit failures.
pub open spec fn spec_verify(p: Proof, r: PjRef) -> Result<(), VerifyError> {
    match r {
        PjRef::Prem(pr) => if prem_live(p, pr) {
            Ok(())
        } else {
            Err(VerifyError::DanglingRef)
        },
        PjRef::Just(jr) => if !just_live(p, jr) {
            Err(VerifyError::DanglingRef)
        } else if !all_deps_ok(p, jr) {
            Err(VerifyError::OutOfScopeLineDep)
        } else if !all_sdeps_ok(p, jr) {
            Err(VerifyError::OutOfScopeSubproofDep)
        } else {
            match check_rule_spec(
                just_at(p, jr).just.rule,
                just_at(p, jr).just.conclusion,
                dep_exprs_spec(p, just_at(p, jr).just.deps@),
                sdep_summaries(p, just_at(p, jr).just.sdeps@),
            ) {
                Ok(()) => Ok(()),
                Err(m) => Err(VerifyError::Mismatch(m)),
            }
        },
    }
}

impl Proof {
    /// The expression a live premise or justification carries, copied out.
    fn pj_expr_x(&self, d: &PjRef) -> (e: Expr)
        requires
            crate::document::pj_live(*self, *d),
        ensures
            e == pj_expr(*self, *d),
    {
        match d {
            PjRef::Prem(pr) => self.prems[pr.0].as_ref().unwrap().expr.duplicate(),
            PjRef::Just(j) => self.justs[j.0].as_ref().unwrap().just.conclusion.duplicate(),
        }
    }

    /// The resolved contents of the live sub-proof `x`.
    fn summarize_subproof(&self, x: &SubRef) -> (r: ResolvedSubproof)
        requires
            wf(*self),
            sub_live(*self, *x),
        ensures
            r.premises@ == sdep_summary(*self, *x).0,
            r.conclusions@ == sdep_summary(*self, *x).1,
    {
        proof {
            assert(sub_entries_ok(*self, x.0));
        }
        let node = self.subs[x.0].as_ref().unwrap();
        let mut premises: Vec<Expr> = Vec::new();
        let mut i: usize = 0;
        while i < node.premises.len()
            invariant
                wf(*self),
                sub_live(*self, *x),
                *node == sub_at(*self, *x),
                i <= node.premises@.len(),
                premises@ == node.premises@.take(i as int).map_values(
                    |pr: PremRef| prem_at(*self, pr).expr,
                ),
            decreases node.premises@.len() - i,
        {
            proof {
                assert(sub_entries_ok(*self, x.0));
                assert(prem_live(*self, node.premises@[i as int]));
            }
            let pr = node.premises[i];
            premises.push(self.prems[pr.0].as_ref().unwrap().expr.duplicate());
            proof {
                assert(premises@ =~= node.premises@.take(i as int + 1).map_values(
                    |pr: PremRef| prem_at(*self, pr).expr,
                ));
            }
            i += 1;
        }
        proof {
            assert(node.premises@.take(node.premises@.len() as int) =~= node.premises@);
        }
        let mut conclusions: Vec<Expr> = Vec::new();
        let mut k: usize = 0;
        while k < node.lines.len()
            invariant
                wf(*self),
                sub_live(*self, *x),
                *node == sub_at(*self, *x),
                k <= node.lines@.len(),
                conclusions@ == direct_concls(*self, node.lines@.take(k as int)),
            decreases node.lines@.len() - k,
        {
            proof {
                assert(sub_entries_ok(*self, x.0));
                assert(crate::document::line_ok(*self, x.0, node.lines@[k as int]));
                assert(node.lines@.take(k as int + 1).drop_last() =~= node.lines@.take(k as int));
                assert(node.lines@.take(k as int + 1).last() == node.lines@[k as int]);
            }
            match &node.lines[k] {
                Line::Direct(j) => {
                    conclusions.push(self.justs[j.0].as_ref().unwrap().just.conclusion.duplicate());
                },
                Line::Sub(_) => {},
            }
            k += 1;
        }
        proof {
            assert(node.lines@.take(node.lines@.len() as int) =~= node.lines@);
        }
        ResolvedSubproof { premises, conclusions }
    }

    /// Checks the line `r`: premises hold by assumption; a justification is
    /// valid exactly when all its citations are visible from it and its rule
    /// accepts the conclusion given the cited expressions. Never mutates the
    /// document; the verdict is a function of document and reference alone.
    pub fn verify_line(&self, r: &PjRef) -> (res: Result<(), VerifyError>)
        requires
            wf(*self),
        ensures
            res == spec_verify(*self, *r),
    {
        let jr = match r {
            PjRef::Prem(pr) => {
                if pr.0 < self.prems.len() && self.prems[pr.0].is_some() {
                    return Ok(());
                } else {
                    return Err(VerifyError::DanglingRef);
                }
            },
            PjRef::Just(jr) => jr,
        };
        if jr.0 >= self.justs.len() {
            return Err(VerifyError::DanglingRef);
        }
        if self.justs[jr.0].is_none() {
            return Err(VerifyError::DanglingRef);
        }
        proof {
            assert(*r == PjRef::Just(*jr));
        }
        let just = &self.justs[jr.0].as_ref().unwrap().just;
        let ghost p = *self;

        let mut k: usize = 0;
        while k < just.deps.len()
            invariant
                wf(p),
                p == *self,
                *r == PjRef::Just(*jr),
                just_live(p, *jr),
                *just == just_at(p, *jr).just,
                k <= just.deps@.len(),
                forall|m: int| 0 <= m < k ==> can_ref_spec(
                    p,
                    PjRef::Just(*jr),
                    DepRef::Line(#[trigger] just.deps@[m]),
                ),
            decreases just.deps@.len() - k,
        {
            if !self.can_reference_dep(r, &DepRef::Line(just.deps[k])) {
                proof {
                    assert(!can_ref_spec(p, PjRef::Just(*jr), DepRef::Line(just.deps@[k as int])));
                    assert(!all_deps_ok(p, *jr));
                }
                return Err(VerifyError::OutOfScopeLineDep);
            }
            k += 1;
        }
        proof {
            assert(all_deps_ok(p, *jr)) by {
                assert forall|m: int| 0 <= m < just_at(p, *jr).just.deps@.len()
                    implies can_ref_spec(
                        p,
                        PjRef::Just(*jr),
                        DepRef::Line(#[trigger] just_at(p, *jr).just.deps@[m]),
                    ) by {
                    assert(just_at(p, *jr).just.deps@[m] == just.deps@[m]);
                }
            }
        }

        let mut k2: usize = 0;
        while k2 < just.sdeps.len()
            invariant
                wf(p),
                p == *self,
                *r == PjRef::Just(*jr),
                just_live(p, *jr),
                *just == just_at(p, *jr).just,
                all_deps_ok(p, *jr),
                k2 <= just.sdeps@.len(),
                forall|m: int| 0 <= m < k2 ==> can_ref_spec(
                    p,
                    PjRef::Just(*jr),
                    DepRef::Sub(#[trigger] just.sdeps@[m]),
                ),
            decreases just.sdeps@.len() - k2,
        {
            if !self.can_reference_dep(r, &DepRef::Sub(just.sdeps[k2])) {
                proof {
                    assert(!can_ref_spec(p, PjRef::Just(*jr), DepRef::Sub(just.sdeps@[k2 as int])));
                    assert(!all_sdeps_ok(p, *jr));
                }
                return Err(VerifyError::OutOfScopeSubproofDep);
            }
            k2 += 1;
        }
        proof {
            assert(all_sdeps_ok(p, *jr)) by {
                assert forall|m: int| 0 <= m < just_at(p, *jr).just.sdeps@.len()
                    implies can_ref_spec(
                        p,
                        PjRef::Just(*jr),
                        DepRef::Sub(#[trigger] just_at(p, *jr).just.sdeps@[m]),
                    ) by {
                    assert(just_at(p, *jr).just.sdeps@[m] == just.sdeps@[m]);
                }
            }
        }

        let mut rdeps: Vec<Expr> = Vec::new();
        let mut k3: usize = 0;
        while k3 < just.deps.len()
            invariant
                wf(p),
                p == *self,
                *r == PjRef::Just(*jr),
                just_live(p, *jr),
                *just == just_at(p, *jr).just,
                all_deps_ok(p, *jr),
                all_sdeps_ok(p, *jr),
                k3 <= just.deps@.len(),
                rdeps@ == just.deps@.take(k3 as int).map_values(|d: PjRef| pj_expr(p, d)),
            decreases just.deps@.len() - k3,
        {
            proof {
                assert(can_ref_spec(p, PjRef::Just(*jr), DepRef::Line(just.deps@[k3 as int])));
            }
            let e = self.pj_expr_x(&just.deps[k3]);
            rdeps.push(e);
            proof {
                assert(rdeps@ =~= just.deps@.take(k3 as int + 1).map_values(
                    |d: PjRef| pj_expr(p, d),
                ));
            }
            k3 += 1;
        }
        proof {
            assert(just.deps@.take(just.deps@.len() as int) =~= just.deps@);
            assert(rdeps@ == dep_exprs_spec(p, just.deps@));
        }

        let mut rsds: Vec<ResolvedSubproof> = Vec::new();
        let mut k4: usize = 0;
        while k4 < just.sdeps.len()
            invariant
                wf(p),
                p == *self,
                *r == PjRef::Just(*jr),
                just_live(p, *jr),
                *just == just_at(p, *jr).just,
                all_deps_ok(p, *jr),
                all_sdeps_ok(p, *jr),
                rdeps@ == dep_exprs_spec(p, just.deps@),
                k4 <= just.sdeps@.len(),
                rsds@.len() == k4,
                forall|m: int| 0 <= m < k4 ==> (#[trigger] rsds@[m]).sm() == sdep_summary(
                    p,
                    just.sdeps@[m],
                ),
            decreases just.sdeps@.len() - k4,
        {
            proof {
                assert(can_ref_spec(p, PjRef::Just(*jr), DepRef::Sub(just.sdeps@[k4 as int])));
            }
            let s = self.summarize_subproof(&just.sdeps[k4]);
            proof {
                assert(s.sm() == sdep_summary(p, just.sdeps@[k4 as int]));
            }
            rsds.push(s);
            k4 += 1;
        }
        proof {
            lemma_summaries_from_parts(p, just.sdeps@, rsds@);
        }

        match check_rule(just.rule, &just.conclusion, &rdeps, &rsds) {
            Ok(()) => Ok(()),
            Err(m) => Err(VerifyError::Mismatch(m)),
        }
    }
}

} // verus!
