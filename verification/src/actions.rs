//! Structural edit actions, as an editing surface issues them: insert a line
//! or a sub-proof before or after a reference, delete a line or the
//! enclosing sub-proof, change a step's rule, toggle a citation. The
//! dispatcher resolves the insertion point, applies the matching mutation,
//! and says what the surface should select afterwards.

use vstd::prelude::*;
use crate::document::{
    Proof, Justification, prem_live, prem_at, just_live, sub_at, wf, parent_of_line_spec,
};
use crate::edits::{dependency_toggled, line_removed, may_remove_line_spec, rule_set};
use crate::expr::Expr;
use crate::mutate::{premise_inserted, step_inserted, subproof_inserted, js_anchor_ok, js_owner, js_line};
use crate::refs::{PremRef, JustRef, SubRef, PjRef, PjsRef, JsRef, DepRef, pj_to_pjs, pj_to_pjs_spec};
use crate::removal::{may_remove_subproof_spec, subproof_removed};
use crate::rules::Rule;
use crate::seq_facts::pos_of;

verus! {

/// What a structural edit targets: a single line, or a whole sub-proof.
#[derive(Debug, Clone, Copy, PartialEq, Eq, Structural)]
pub enum LAKItem {
    Line,
    Subproof,
}

/// An edit requested on the document, interpreted relative to a reference.
#[derive(Debug, Clone, Copy, PartialEq, Eq, Structural)]
pub enum LineActionKind {
    Insert { what: LAKItem, after: bool, relative_to: LAKItem },
    Delete { what: LAKItem },
    SetRule { rule: Rule },
    Select,
    ToggleDependency { dep: DepRef },
}

/// What the editing surface should do with its selection after an action.
#[derive(Debug, Clone, Copy, PartialEq, Eq, Structural)]
pub enum SelectionUpdate {
    Select(PjRef),
    Deselect,
    Keep,
}

/// One past the anchor when inserting after it, the anchor's own position
/// when inserting before.
pub open spec fn insert_offset(after: bool) -> int {
    if after {
        1
    } else {
        0
    }
}

/// The anchor an insertion resolves to: the reference's own line, or — for
/// edits relative to the enclosing sub-proof — that sub-proof's line in its
/// parent. Targeting the parent of a root-level line is refused.
pub open spec fn insertion_point_spec(p: Proof, relative_to: LAKItem, orig: PjRef) -> Option<
    PjsRef,
> {
    match relative_to {
        LAKItem::Line => Some(pj_to_pjs_spec(orig)),
        LAKItem::Subproof => match parent_of_line_spec(p, pj_to_pjs_spec(orig)) {
            Some(sr) => Some(PjsRef::Sub(sr)),
            None => None,
        },
    }
}

impl Proof {
    /// Applies one edit action relative to `orig` and reports the selection
    /// to adopt. A refused edit leaves the document exactly as it was.
    pub fn apply_line_action(&mut self, action: &LineActionKind, orig: &PjRef) -> (sel:
        SelectionUpdate)
        requires
            wf(*old(self)),
        ensures
            wf(*final(self)),
            match *action {
                LineActionKind::Select => *final(self) == *old(self) && sel
                    == SelectionUpdate::Select(*orig),
                LineActionKind::SetRule { rule } => match *orig {
                    PjRef::Just(jr) => {
                        if just_live(*old(self), jr) {
                            sel == SelectionUpdate::Select(*orig) && rule_set(
                                *old(self),
                                *final(self),
                                jr,
                                rule,
                            )
                        } else {
                            *final(self) == *old(self) && sel == SelectionUpdate::Keep
                        }
                    },
                    PjRef::Prem(_) => *final(self) == *old(self) && sel == SelectionUpdate::Keep,
                },
                LineActionKind::ToggleDependency { dep } => match *orig {
                    PjRef::Just(jr) => {
                        if just_live(*old(self), jr) {
                            dependency_toggled(*old(self), *final(self), jr, dep) && sel
                                == SelectionUpdate::Keep
                        } else {
                            *final(self) == *old(self) && sel == SelectionUpdate::Keep
                        }
                    },
                    PjRef::Prem(_) => *final(self) == *old(self) && sel == SelectionUpdate::Keep,
                },
                LineActionKind::Delete { what: LAKItem::Line } => {
                    &&& sel == SelectionUpdate::Deselect
                    &&& if may_remove_line_spec(*old(self), *orig) {
                        line_removed(*old(self), *final(self), *orig)
                    } else {
                        *final(self) == *old(self)
                    }
                },
                LineActionKind::Delete { what: LAKItem::Subproof } => {
                    &&& sel == SelectionUpdate::Deselect
                    &&& match parent_of_line_spec(*old(self), pj_to_pjs_spec(*orig)) {
                        Some(sr) => if may_remove_subproof_spec(*old(self), sr) {
                            subproof_removed(*old(self), *final(self), sr)
                        } else {
                            *final(self) == *old(self)
                        },
                        None => *final(self) == *old(self),
                    }
                },
                LineActionKind::Insert { what, after, relative_to } => {
                    match insertion_point_spec(*old(self), relative_to, *orig) {
                        None => *final(self) == *old(self) && sel == SelectionUpdate::Keep,
                        Some(point) => insert_applied(
                            *old(self),
                            *final(self),
                            what,
                            after,
                            point,
                            sel,
                        ),
                    }
                },
            },
    {
        match action {
            LineActionKind::Select => SelectionUpdate::Select(*orig),
            LineActionKind::SetRule { rule } => {
                match orig {
                    PjRef::Just(jr) => {
                        if self.set_rule(jr, *rule) {
                            SelectionUpdate::Select(*orig)
                        } else {
                            SelectionUpdate::Keep
                        }
                    },
                    PjRef::Prem(_) => SelectionUpdate::Keep,
                }
            },
            LineActionKind::ToggleDependency { dep } => {
                match orig {
                    PjRef::Just(jr) => {
                        self.toggle_dependency(jr, dep);
                        SelectionUpdate::Keep
                    },
                    PjRef::Prem(_) => SelectionUpdate::Keep,
                }
            },
            LineActionKind::Delete { what: LAKItem::Line } => {
                self.remove_line(orig);
                SelectionUpdate::Deselect
            },
            LineActionKind::Delete { what: LAKItem::Subproof } => {
                let parent = self.parent_of_line(&pj_to_pjs(*orig));
                match parent {
                    Some(sr) => {
                        self.remove_subproof(&sr);
                    },
                    None => {},
                }
                SelectionUpdate::Deselect
            },
            LineActionKind::Insert { what, after, relative_to } => {
                let point = match relative_to {
                    LAKItem::Line => pj_to_pjs(*orig),
                    LAKItem::Subproof => match self.parent_of_line(&pj_to_pjs(*orig)) {
                        Some(sr) => PjsRef::Sub(sr),
                        None => {
                            return SelectionUpdate::Keep;
                        },
                    },
                };
                self.insert_at_point(*what, *after, point)
            },
        }
    }

    /// Performs the insertion once the anchor is resolved.
    fn insert_at_point(&mut self, what: LAKItem, after: bool, point: PjsRef) -> (sel:
        SelectionUpdate)
        requires
            wf(*old(self)),
        ensures
            wf(*final(self)),
            insert_applied(*old(self), *final(self), what, after, point, sel),
    {
        let ghost p0 = *old(self);
        match what {
            LAKItem::Line => {
                match point {
                    PjsRef::Prem(pr) => {
                        match self.add_premise_relative(Expr::blank(), &pr, after) {
                            Some(np) => {
                                proof {
                                    assert(premise_inserted(
                                        p0,
                                        *self,
                                        prem_at(p0, pr).parent,
                                        pos_of(
                                            sub_at(p0, SubRef(prem_at(p0, pr).parent)).premises@,
                                            pr,
                                        ) + insert_offset(after),
                                        Expr::Var(0),
                                        np,
                                    ));
                                }
                                SelectionUpdate::Select(PjRef::Prem(np))
                            },
                            None => SelectionUpdate::Keep,
                        }
                    },
                    PjsRef::Just(jr) => {
                        let bs = blank_step();
                        let ghost bj = bs;
                        match self.add_step_relative(bs, &JsRef::Just(jr), after) {
                            Some(nj) => {
                                proof {
                                    assert(step_inserted(
                                        p0,
                                        *self,
                                        js_owner(p0, JsRef::Just(jr)),
                                        pos_of(
                                            sub_at(p0, SubRef(js_owner(p0, JsRef::Just(jr)))).lines@,
                                            js_line(JsRef::Just(jr)),
                                        ) + insert_offset(after),
                                        bj,
                                        nj,
                                    ));
                                }
                                SelectionUpdate::Select(PjRef::Just(nj))
                            },
                            None => SelectionUpdate::Keep,
                        }
                    },
                    PjsRef::Sub(sr) => {
                        let bs = blank_step();
                        let ghost bj = bs;
                        match self.add_step_relative(bs, &JsRef::Sub(sr), after) {
                            Some(nj) => {
                                proof {
                                    assert(step_inserted(
                                        p0,
                                        *self,
                                        js_owner(p0, JsRef::Sub(sr)),
                                        pos_of(
                                            sub_at(p0, SubRef(js_owner(p0, JsRef::Sub(sr)))).lines@,
                                            js_line(JsRef::Sub(sr)),
                                        ) + insert_offset(after),
                                        bj,
                                        nj,
                                    ));
                                }
                                SelectionUpdate::Select(PjRef::Just(nj))
                            },
                            None => SelectionUpdate::Keep,
                        }
                    },
                }
            },
            LAKItem::Subproof => {
                let anchor = match point {
                    PjsRef::Just(jr) => JsRef::Just(jr),
                    PjsRef::Sub(sr) => JsRef::Sub(sr),
                    PjsRef::Prem(_) => {
                        return SelectionUpdate::Keep;
                    },
                };
                let nsr = match self.add_subproof_relative(&anchor, after) {
                    Some(nsr) => nsr,
                    None => {
                        return SelectionUpdate::Keep;
                    },
                };
                let ghost m1 = *self;
                proof {
                    assert(subproof_inserted(
                        p0,
                        m1,
                        js_owner(p0, anchor),
                        pos_of(sub_at(p0, SubRef(js_owner(p0, anchor))).lines@, js_line(anchor))
                            + insert_offset(after),
                        nsr,
                    ));
                }
                let np = match self.add_premise_in(&nsr, Expr::blank()) {
                    Some(np) => np,
                    None => {
                        proof {
                            assert(false);
                        }
                        return SelectionUpdate::Keep;
                    },
                };
                let ghost m2 = *self;
                proof {
                    assert(sub_at(m1, nsr).premises@.len() == 0);
                    assert(premise_inserted(m1, m2, nsr.0, 0, Expr::Var(0), np));
                }
                let bs = blank_step();
                let ghost bj = bs;
                let nj = match self.add_step_in(&nsr, bs) {
                    Some(nj) => nj,
                    None => {
                        proof {
                            assert(false);
                        }
                        return SelectionUpdate::Keep;
                    },
                };
                proof {
                    assert(sub_at(m2, nsr).lines@.len() == 0);
                    assert(step_inserted(m2, *self, nsr.0, 0, bj, nj));
                }
                SelectionUpdate::Select(PjRef::Prem(np))
            },
        }
    }
}

/// A freshly inserted step: a blank conclusion, the reiteration placeholder
/// rule, and no citations.
pub fn blank_step() -> (j: Justification)
    ensures
        j.conclusion == Expr::Var(0),
        j.rule == Rule::Reit,
        j.deps@ == Seq::<PjRef>::empty(),
        j.sdeps@ == Seq::<SubRef>::empty(),
{
    Justification { conclusion: Expr::blank(), rule: Rule::Reit, deps: Vec::new(), sdeps: Vec::new() }
}

/// What a resolved insertion does: a new blank premise next to a premise
/// anchor, a new blank step next to a line anchor, or a new sub-proof —
/// populated with one blank premise and one blank step — next to a line
/// anchor; a stale anchor, the root anchor, and a sub-proof insertion at a
/// premise are refused.
pub open spec fn insert_applied(
    p0: Proof,
    p1: Proof,
    what: LAKItem,
    after: bool,
    point: PjsRef,
    sel: SelectionUpdate,
) -> bool {
    match what {
        LAKItem::Line => match point {
            PjsRef::Prem(pr) => if prem_live(p0, pr) {
                exists|np: PremRef|
                    sel == SelectionUpdate::Select(PjRef::Prem(np)) && #[trigger] premise_inserted(
                        p0,
                        p1,
                        prem_at(p0, pr).parent,
                        pos_of(sub_at(p0, SubRef(prem_at(p0, pr).parent)).premises@, pr) + insert_offset(after),
                        Expr::Var(0),
                        np,
                    )
            } else {
                p1 == p0 && sel == SelectionUpdate::Keep
            },
            PjsRef::Just(jr) => line_step_inserted(p0, p1, JsRef::Just(jr), after, sel),
            PjsRef::Sub(sr) => line_step_inserted(p0, p1, JsRef::Sub(sr), after, sel),
        },
        LAKItem::Subproof => match point {
            PjsRef::Prem(_) => p1 == p0 && sel == SelectionUpdate::Keep,
            PjsRef::Just(jr) => subproof_insert_applied(p0, p1, JsRef::Just(jr), after, sel),
            PjsRef::Sub(sr) => subproof_insert_applied(p0, p1, JsRef::Sub(sr), after, sel),
        },
    }
}

/// A blank step was inserted next to the anchor's line, and is selected.
pub open spec fn line_step_inserted(
    p0: Proof,
    p1: Proof,
    anchor: JsRef,
    after: bool,
    sel: SelectionUpdate,
) -> bool {
    if js_anchor_ok(p0, anchor) {
        exists|nj: JustRef, j: Justification|
            sel == SelectionUpdate::Select(PjRef::Just(nj)) && j.conclusion == Expr::Var(0)
                && j.rule == Rule::Reit && j.deps@ == Seq::<PjRef>::empty() && j.sdeps@ == Seq::<
                SubRef,
            >::empty() && #[trigger] step_inserted(
                p0,
                p1,
                js_owner(p0, anchor),
                pos_of(sub_at(p0, SubRef(js_owner(p0, anchor))).lines@, js_line(anchor)) + insert_offset(after),
                j,
                nj,
            )
    } else {
        p1 == p0 && sel == SelectionUpdate::Keep
    }
}

/// A fresh sub-proof was inserted next to the anchor's line and populated
/// with one blank premise and one blank step; the premise is selected.
pub open spec fn subproof_insert_applied(
    p0: Proof,
    p1: Proof,
    anchor: JsRef,
    after: bool,
    sel: SelectionUpdate,
) -> bool {
    if js_anchor_ok(p0, anchor) {
        exists|mid1: Proof, mid2: Proof, nsr: SubRef, np: PremRef, nj: JustRef, j: Justification|
            {
                &&& sel == SelectionUpdate::Select(PjRef::Prem(np))
                &&& #[trigger] subproof_inserted(
                    p0,
                    mid1,
                    js_owner(p0, anchor),
                    pos_of(sub_at(p0, SubRef(js_owner(p0, anchor))).lines@, js_line(anchor)) + insert_offset(after),
                    nsr,
                )
                &&& #[trigger] premise_inserted(mid1, mid2, nsr.0, 0, Expr::Var(0), np)
                &&& j.conclusion == Expr::Var(0) && j.rule == Rule::Reit && j.deps@ == Seq::<
                    PjRef,
                >::empty() && j.sdeps@ == Seq::<SubRef>::empty()
                &&& #[trigger] step_inserted(mid2, p1, nsr.0, 0, j, nj)
            }
    } else {
        p1 == p0 && sel == SelectionUpdate::Keep
    }
}

} // verus!
