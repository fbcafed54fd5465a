use aris::actions::{LAKItem, LineActionKind, SelectionUpdate};
use aris::checker::VerifyError;
use aris::document::{Justification, Proof};
use aris::expr::Expr;
use aris::mutate::new_empty_proof;
use aris::refs::{DepRef, JsRef, PjRef, PremRef, SubRef};
use aris::rules::{Rule, RuleMismatch};

use std::collections::BTreeSet;

fn var(n: u64) -> Expr {
    Expr::Var(n)
}

fn and(a: Expr, b: Expr) -> Expr {
    Expr::And(Box::new(a), Box::new(b))
}

fn or(a: Expr, b: Expr) -> Expr {
    Expr::Or(Box::new(a), Box::new(b))
}

fn imp(a: Expr, b: Expr) -> Expr {
    Expr::Imp(Box::new(a), Box::new(b))
}

fn step(conclusion: Expr, rule: Rule, deps: Vec<PjRef>, sdeps: Vec<SubRef>) -> Justification {
    Justification { conclusion, rule, deps, sdeps }
}

/// A document with root premises `A`, `B`, a conjunction step, a nested
/// sub-proof assuming `C` that reiterates `A & B`, and an implication step
/// citing the sub-proof as a range. Returns the document and the references
/// to the conjunction, the inner reiteration, the sub-proof and the
/// implication.
fn demo_proof() -> (Proof, PjRef, PjRef, SubRef, PjRef) {
    let mut p = Proof::new();
    let pa = p.add_premise(var(1));
    let pb = p.add_premise(var(2));
    let j1 = p.add_step(step(
        and(var(1), var(2)),
        Rule::AndIntro,
        vec![PjRef::Prem(pa), PjRef::Prem(pb)],
        vec![],
    ));
    let sr = p.add_subproof();
    p.add_premise_in(&sr, var(3)).unwrap();
    let inner = p
        .add_step_in(&sr, step(and(var(1), var(2)), Rule::Reit, vec![PjRef::Just(j1)], vec![]))
        .unwrap();
    let j2 = p.add_step(step(
        imp(var(3), and(var(1), var(2))),
        Rule::ImpIntro,
        vec![],
        vec![sr],
    ));
    (p, PjRef::Just(j1), PjRef::Just(inner), sr, PjRef::Just(j2))
}

#[test]
fn demo_prettyprinting() {
    let (p, _, _, _, _) = demo_proof();
    let index = p.line_depth_index();
    println!("{:?}\n{:?}", p, index);
}

#[test]
fn and_intro_accepts_conjunction() {
    let (p, j1, _, _, _) = demo_proof();
    assert_eq!(p.verify_line(&j1), Ok(()));
}

#[test]
fn and_intro_names_expected_conjunction() {
    let (mut p, j1, _, _, _) = demo_proof();
    let jr = match j1 {
        PjRef::Just(jr) => jr,
        _ => unreachable!(),
    };
    p.with_mut_step(&jr, |j: Justification| {
        (Justification { conclusion: or(var(1), var(2)), ..j }, ())
    })
    .unwrap();
    assert_eq!(
        p.verify_line(&j1),
        Err(VerifyError::Mismatch(RuleMismatch::NotConjunctionOfDeps {
            left: var(1),
            right: var(2),
        }))
    );
}

#[test]
fn premises_are_valid_by_fiat() {
    let (p, _, _, _, _) = demo_proof();
    assert_eq!(p.verify_line(&PjRef::Prem(PremRef(0))), Ok(()));
}

#[test]
fn imp_intro_accepts_range_citation() {
    let (p, _, inner, _, j2) = demo_proof();
    assert_eq!(p.verify_line(&inner), Ok(()));
    assert_eq!(p.verify_line(&j2), Ok(()));
}

#[test]
fn closed_subproof_internals_are_not_citable() {
    let (mut p, _, inner, _, j2) = demo_proof();
    let jr = match j2 {
        PjRef::Just(jr) => jr,
        _ => unreachable!(),
    };
    // Citing the sub-proof's internal line directly, bypassing the range
    // form, is out of scope.
    assert!(p.toggle_dependency(&jr, &DepRef::Line(inner)));
    assert_eq!(p.verify_line(&j2), Err(VerifyError::OutOfScopeLineDep));
}

#[test]
fn reiteration_mismatch_names_cited_line() {
    let mut p = Proof::new();
    let pa = p.add_premise(var(1));
    p.add_premise(var(2));
    let j = p.add_step(step(var(2), Rule::Reit, vec![PjRef::Prem(pa)], vec![]));
    assert_eq!(
        p.verify_line(&PjRef::Just(j)),
        Err(VerifyError::Mismatch(RuleMismatch::NotReiterationOfDep { dep: var(1) }))
    );
}

#[test]
fn wrong_citation_counts_are_mismatches() {
    let mut p = Proof::new();
    p.add_premise(var(1));
    let j = p.add_step(step(var(1), Rule::Reit, vec![], vec![]));
    assert_eq!(
        p.verify_line(&PjRef::Just(j)),
        Err(VerifyError::Mismatch(RuleMismatch::WrongDepCount { expected: 1, got: 0 }))
    );
    let j2 = p.add_step(step(imp(var(1), var(1)), Rule::ImpIntro, vec![], vec![]));
    assert_eq!(
        p.verify_line(&PjRef::Just(j2)),
        Err(VerifyError::Mismatch(RuleMismatch::WrongSdepCount { expected: 1, got: 0 }))
    );
}

#[test]
fn dangling_reference_is_reported() {
    let (p, _, _, _, _) = demo_proof();
    assert_eq!(p.verify_line(&PjRef::Just(aris::refs::JustRef(99))), Err(VerifyError::DanglingRef));
}

#[test]
fn forward_citation_is_out_of_scope() {
    let mut p = Proof::new();
    p.add_premise(var(1));
    let j1 = p.add_step(step(var(1), Rule::Reit, vec![], vec![]));
    let j2 = p.add_step(step(var(1), Rule::Reit, vec![PjRef::Just(j1)], vec![]));
    // j2 cites the earlier j1: in scope, and the reiteration holds.
    assert_eq!(p.verify_line(&PjRef::Just(j2)), Ok(()));
    // Make j1 cite the later j2: rejected before any rule runs.
    let mut p2 = p;
    assert!(p2.toggle_dependency(&j1, &DepRef::Line(PjRef::Just(j2))));
    assert_eq!(p2.verify_line(&PjRef::Just(j1)), Err(VerifyError::OutOfScopeLineDep));
}

#[test]
fn removed_line_stops_resolving() {
    let (mut p, j1, _, _, _) = demo_proof();
    let pa = PremRef(0);
    assert!(p.lookup_premise(&pa).is_some());
    assert!(p.remove_line(&PjRef::Prem(pa)));
    assert!(p.lookup_premise(&pa).is_none());
    // The conjunction still cites the removed premise: the citation is now
    // treated as out of scope, never silently resolved.
    assert_eq!(p.verify_line(&j1), Err(VerifyError::OutOfScopeLineDep));
}

#[test]
fn removed_subproof_stops_resolving() {
    let (mut p, _, inner, sr, j2) = demo_proof();
    assert!(p.lookup_subproof(&sr).is_some());
    assert!(p.remove_subproof(&sr));
    assert!(p.lookup_subproof(&sr).is_none());
    match inner {
        PjRef::Just(jr) => assert!(p.lookup_justification(&jr).is_none()),
        _ => unreachable!(),
    }
    assert_eq!(p.verify_line(&j2), Err(VerifyError::OutOfScopeSubproofDep));
}

#[test]
fn last_premise_and_line_cannot_be_removed() {
    let mut p = new_empty_proof();
    let fresh = new_empty_proof();
    assert!(!p.remove_line(&PjRef::Prem(PremRef(0))));
    assert!(!p.remove_line(&PjRef::Just(aris::refs::JustRef(0))));
    assert!(!p.remove_subproof(&SubRef(0)));
    // Refused calls leave the document observably unchanged.
    assert_eq!(p, fresh);
}

#[test]
fn toggle_dependency_twice_restores_set() {
    let (mut p, j1, _, _, _) = demo_proof();
    let jr = match j1 {
        PjRef::Just(jr) => jr,
        _ => unreachable!(),
    };
    let before: BTreeSet<PjRef> =
        p.lookup_justification(&jr).unwrap().deps.iter().copied().collect();
    let dep = DepRef::Line(PjRef::Prem(PremRef(1)));
    assert!(p.toggle_dependency(&jr, &dep));
    let middle: BTreeSet<PjRef> =
        p.lookup_justification(&jr).unwrap().deps.iter().copied().collect();
    assert_ne!(before, middle);
    assert!(p.toggle_dependency(&jr, &dep));
    let after: BTreeSet<PjRef> =
        p.lookup_justification(&jr).unwrap().deps.iter().copied().collect();
    assert_eq!(before, after);
}

#[test]
fn verification_is_deterministic() {
    let (p, j1, _, _, j2) = demo_proof();
    assert_eq!(p.verify_line(&j1), p.verify_line(&j1));
    assert_eq!(p.verify_line(&j2), p.verify_line(&j2));
}

#[test]
fn lookup_is_stable_across_unrelated_edits() {
    let (mut p, j1, _, _, _) = demo_proof();
    let pa = PremRef(0);
    p.add_premise(var(7));
    p.add_subproof_relative(&JsRef::Just(aris::refs::JustRef(0)), true).unwrap();
    match j1 {
        PjRef::Just(jr) => {
            assert!(p.toggle_dependency(&jr, &DepRef::Line(PjRef::Prem(PremRef(1)))));
        },
        _ => unreachable!(),
    }
    assert_eq!(p.lookup_premise(&pa), Some(&var(1)));
}

#[test]
fn index_numbers_depth_first() {
    let (p, _, _, _, _) = demo_proof();
    let index = p.line_depth_index();
    let lines: Vec<(usize, usize)> = index.iter().map(|e| (e.line, e.depth)).collect();
    assert_eq!(lines, vec![(1, 0), (2, 0), (3, 0), (4, 1), (5, 1), (6, 0)]);
    assert_eq!(index[3].re, PjRef::Prem(PremRef(2)));
}

#[test]
fn inserting_premise_before_shifts_index_by_one() {
    let (mut p, _, _, _, _) = demo_proof();
    let before = p.line_depth_index();
    let new_ref = p.add_premise_relative(var(9), &PremRef(1), false).unwrap();
    let after = p.line_depth_index();
    assert_eq!(after.len(), before.len() + 1);
    // The new premise sits directly before the reference premise `B`.
    assert_eq!(after[1].re, PjRef::Prem(new_ref));
    assert_eq!(after[1].line, 2);
    assert_eq!(after[1].depth, 0);
    assert_eq!(after[0], before[0]);
    for k in 1..before.len() {
        assert_eq!(after[k + 1].re, before[k].re);
        assert_eq!(after[k + 1].line, before[k].line + 1);
        assert_eq!(after[k + 1].depth, before[k].depth);
    }
}

#[test]
fn blank_document_is_minimal() {
    let p = new_empty_proof();
    assert_eq!(p.premises().len(), 1);
    assert_eq!(p.lines().len(), 1);
    assert_eq!(p.lookup_premise(&PremRef(0)), Some(&Expr::Var(0)));
}

#[test]
fn expressions_compare_and_copy() {
    let e = imp(var(3), and(var(1), var(2)));
    let d = e.duplicate();
    assert!(e.eq_expr(&d));
    assert_eq!(e, d);
    assert!(!e.eq_expr(&var(3)));
}

#[test]
fn duplicate_citations_collapse() {
    let mut p = Proof::new();
    let pa = p.add_premise(var(1));
    let j = p.add_step(step(
        and(var(1), var(1)),
        Rule::AndIntro,
        vec![PjRef::Prem(pa), PjRef::Prem(pa)],
        vec![],
    ));
    // The duplicate citation collapsed, so conjunction introduction sees one
    // citation, not two.
    assert_eq!(p.lookup_justification(&j).unwrap().deps.len(), 1);
    assert_eq!(
        p.verify_line(&PjRef::Just(j)),
        Err(VerifyError::Mismatch(RuleMismatch::WrongDepCount { expected: 2, got: 1 }))
    );
}

#[test]
fn actions_drive_the_document() {
    let mut p = new_empty_proof();
    // Insert a premise after the blank one.
    let sel = p.apply_line_action(
        &LineActionKind::Insert { what: LAKItem::Line, after: true, relative_to: LAKItem::Line },
        &PjRef::Prem(PremRef(0)),
    );
    let new_prem = match sel {
        SelectionUpdate::Select(PjRef::Prem(pr)) => pr,
        other => panic!("selection was {:?}", other),
    };
    assert_eq!(p.premises().len(), 2);
    // Insert a sub-proof after the blank step.
    let sel2 = p.apply_line_action(
        &LineActionKind::Insert {
            what: LAKItem::Subproof,
            after: true,
            relative_to: LAKItem::Line,
        },
        &PjRef::Just(aris::refs::JustRef(0)),
    );
    assert!(matches!(sel2, SelectionUpdate::Select(PjRef::Prem(_))));
    assert_eq!(p.lines().len(), 2);
    // Set the blank step's rule.
    let sel3 = p.apply_line_action(
        &LineActionKind::SetRule { rule: Rule::AndIntro },
        &PjRef::Just(aris::refs::JustRef(0)),
    );
    assert!(matches!(sel3, SelectionUpdate::Select(_)));
    assert_eq!(p.lookup_justification(&aris::refs::JustRef(0)).unwrap().rule, Rule::AndIntro);
    // Deleting the extra premise is allowed and deselects.
    let sel4 = p.apply_line_action(
        &LineActionKind::Delete { what: LAKItem::Line },
        &PjRef::Prem(new_prem),
    );
    assert_eq!(sel4, SelectionUpdate::Deselect);
    assert!(p.lookup_premise(&new_prem).is_none());
}

#[test]
fn parent_of_line_sees_nesting() {
    let (p, j1, inner, sr, _) = demo_proof();
    assert_eq!(p.parent_of_line(&aris::refs::pj_to_pjs(j1)), None);
    assert_eq!(p.parent_of_line(&aris::refs::pj_to_pjs(inner)), Some(sr));
}

#[test]
fn can_reference_dep_enforces_visibility() {
    let (p, j1, inner, sr, j2) = demo_proof();
    assert!(p.can_reference_dep(&j2, &DepRef::Sub(sr)));
    assert!(p.can_reference_dep(&j1, &DepRef::Line(PjRef::Prem(PremRef(0)))));
    assert!(p.can_reference_dep(&inner, &DepRef::Line(j1)));
    // The outer implication may not cite the closed sub-proof's internal
    // line, and nothing may cite a line that follows it.
    assert!(!p.can_reference_dep(&j2, &DepRef::Line(inner)));
    assert!(!p.can_reference_dep(&j1, &DepRef::Line(j2)));
    // A premise cites nothing.
    assert!(!p.can_reference_dep(&PjRef::Prem(PremRef(0)), &DepRef::Line(j1)));
}

#[test]
fn imp_intro_needs_single_assumption() {
    let mut p = Proof::new();
    p.add_premise(var(1));
    let sr = p.add_subproof();
    p.add_premise_in(&sr, var(2)).unwrap();
    p.add_premise_in(&sr, var(3)).unwrap();
    p.add_step_in(&sr, step(var(1), Rule::Reit, vec![PjRef::Prem(PremRef(0))], vec![]))
        .unwrap();
    let j = p.add_step(step(imp(var(2), var(1)), Rule::ImpIntro, vec![], vec![sr]));
    assert_eq!(
        p.verify_line(&PjRef::Just(j)),
        Err(VerifyError::Mismatch(RuleMismatch::WrongAssumptionCount { got: 2 }))
    );
}

#[test]
fn imp_intro_names_assumption_on_mismatch() {
    let mut p = Proof::new();
    p.add_premise(var(1));
    let sr = p.add_subproof();
    p.add_premise_in(&sr, var(3)).unwrap();
    p.add_step_in(&sr, step(var(1), Rule::Reit, vec![PjRef::Prem(PremRef(0))], vec![]))
        .unwrap();
    // Wrong antecedent: the sub-proof assumes C, not B.
    let j = p.add_step(step(imp(var(2), var(1)), Rule::ImpIntro, vec![], vec![sr]));
    assert_eq!(
        p.verify_line(&PjRef::Just(j)),
        Err(VerifyError::Mismatch(RuleMismatch::NotImplicationOfSubproof { assumption: var(3) }))
    );
}

#[test]
fn no_insertion_point_above_the_root() {
    let mut p = new_empty_proof();
    let fresh = new_empty_proof();
    // The root sub-proof is no line: nothing can be inserted next to it.
    assert_eq!(p.add_step_relative(step(var(1), Rule::Reit, vec![], vec![]), &JsRef::Sub(SubRef(0)), true), None);
    assert_eq!(p.add_subproof_relative(&JsRef::Sub(SubRef(0)), false), None);
    // An edit relative to the enclosing sub-proof of a root-level line is
    // refused the same way.
    let sel = p.apply_line_action(
        &LineActionKind::Insert {
            what: LAKItem::Line,
            after: false,
            relative_to: LAKItem::Subproof,
        },
        &PjRef::Prem(PremRef(0)),
    );
    assert_eq!(sel, SelectionUpdate::Keep);
    assert_eq!(p, fresh);
}

#[test]
fn stale_anchor_is_refused() {
    let (mut p, _, _, sr, _) = demo_proof();
    assert!(p.remove_subproof(&sr));
    assert_eq!(p.add_premise_relative(var(9), &PremRef(2), true), None);
    assert_eq!(p.add_subproof_relative(&JsRef::Sub(sr), true), None);
    assert!(!p.toggle_dependency(&aris::refs::JustRef(99), &DepRef::Sub(sr)));
}
