//! Laws the document model obeys, stated across the operations' contracts:
//! stale citations never verify, toggling a citation twice restores the
//! dependency set, refused removals never drop a sub-proof below one premise
//! and one line, and inserting a premise at root level shifts the flattened
//! index by exactly one without touching any depth.

use vstd::prelude::*;
use crate::checker::{spec_verify, VerifyError, all_deps_ok, all_sdeps_ok};
use crate::document::{
    Proof, just_live, just_at, prem_at, prem_live, sub_at, sub_live, wf, pj_live,
};
use crate::edits::{dependency_toggled, line_removed, may_remove_line_spec};
use crate::expr::Expr;
use crate::index::{flat_doc, flat_sub, flat_lines};
use crate::mutate::premise_inserted;
use crate::refs::{PremRef, JustRef, SubRef, PjRef, DepRef, Line};
use crate::removal::{may_remove_subproof_spec, subproof_removed};
use crate::scope::can_ref_spec;
use crate::seq_facts::{lemma_toggle_twice, lemma_pos_of};

verus! {

/// A justification citing a line that no longer resolves never verifies: the
/// engine reports the stale direct citation as out of scope.
pub proof fn lemma_dangling_line_citation_rejected(p: Proof, jr: JustRef, d: PjRef)
    requires
        just_live(p, jr),
        just_at(p, jr).just.deps@.contains(d),
        !pj_live(p, d),
    ensures
        spec_verify(p, PjRef::Just(jr)) == Err::<(), VerifyError>(VerifyError::OutOfScopeLineDep),
{
    assert(!can_ref_spec(p, PjRef::Just(jr), DepRef::Line(d)));
    let k = choose|k: int| 0 <= k < just_at(p, jr).just.deps@.len() && just_at(
        p,
        jr,
    ).just.deps@[k] == d;
    assert(!all_deps_ok(p, jr)) by {
        assert(just_at(p, jr).just.deps@[k] == d);
    }
}

/// A justification citing a sub-proof that no longer resolves never
/// verifies, provided its direct citations pass: the engine reports the
/// stale range citation as out of scope.
pub proof fn lemma_dangling_range_citation_rejected(p: Proof, jr: JustRef, x: SubRef)
    requires
        just_live(p, jr),
        just_at(p, jr).just.sdeps@.contains(x),
        !sub_live(p, x),
        all_deps_ok(p, jr),
    ensures
        spec_verify(p, PjRef::Just(jr)) == Err::<(), VerifyError>(
            VerifyError::OutOfScopeSubproofDep,
        ),
{
    assert(!can_ref_spec(p, PjRef::Just(jr), DepRef::Sub(x)));
    let k = choose|k: int| 0 <= k < just_at(p, jr).just.sdeps@.len() && just_at(
        p,
        jr,
    ).just.sdeps@[k] == x;
    assert(!all_sdeps_ok(p, jr)) by {
        assert(just_at(p, jr).just.sdeps@[k] == x);
    }
}

/// Toggling the same dependency twice restores the justification's citation
/// sets exactly.
pub proof fn lemma_toggle_dependency_twice(p0: Proof, p1: Proof, p2: Proof, jr: JustRef, dep: DepRef)
    requires
        wf(p0),
        just_live(p0, jr),
        dependency_toggled(p0, p1, jr, dep),
        dependency_toggled(p1, p2, jr, dep),
    ensures
        just_at(p2, jr).just.deps@.to_set() == just_at(p0, jr).just.deps@.to_set(),
        just_at(p2, jr).just.sdeps@.to_set() == just_at(p0, jr).just.sdeps@.to_set(),
{
    assert(crate::document::just_parent_ok(p0, jr.0));
    match dep {
        DepRef::Line(d) => {
            lemma_toggle_twice(just_at(p0, jr).just.deps@, d);
        },
        DepRef::Sub(x) => {
            lemma_toggle_twice(just_at(p0, jr).just.sdeps@, x);
        },
    }
}

/// Insertions leave every reference that already resolved resolving to the
/// same entity with the same contents; with the survivor clauses of
/// `line_removed` and `subproof_removed`, and the single-slot clauses of the
/// rewrites, any sequence of mutations that does not remove an entity keeps
/// its reference resolving to it.
pub proof fn lemma_insertions_preserve_lookups(p0: Proof, p1: Proof, s: usize, pos: int, e: Expr, nr: PremRef)
    requires
        premise_inserted(p0, p1, s, pos, e, nr),
    ensures
        forall|pr: PremRef| #[trigger] prem_live(p0, pr) ==> prem_live(p1, pr) && prem_at(p1, pr)
            == prem_at(p0, pr),
        forall|j: JustRef| #[trigger] just_live(p0, j) ==> just_live(p1, j) && just_at(p1, j)
            == just_at(p0, j),
        forall|c: SubRef| #[trigger] sub_live(p0, c) ==> sub_live(p1, c),
{
    assert forall|pr: PremRef| #[trigger] prem_live(p0, pr) implies prem_live(p1, pr) && prem_at(
        p1,
        pr,
    ) == prem_at(p0, pr) by {
        assert(p1.prems@[pr.0 as int] == p0.prems@[pr.0 as int]);
    }
    assert forall|c: SubRef| #[trigger] sub_live(p0, c) implies sub_live(p1, c) by {
        if c.0 != s {
            assert(p1.subs@[c.0 as int] == p0.subs@[c.0 as int]);
        }
    }
}

/// An allowed `remove_line` leaves the owning sub-proof with at least one
/// premise and at least one line; together with the refusal clauses of
/// `remove_line` and `remove_subproof`, no removal drops below that floor.
pub proof fn lemma_remove_line_keeps_floor(p0: Proof, p1: Proof, r: PjRef)
    requires
        wf(p0),
        may_remove_line_spec(p0, r),
        line_removed(p0, p1, r),
    ensures
        match r {
            PjRef::Prem(pr) => sub_at(p1, SubRef(prem_at(p0, pr).parent)).premises@.len() >= 1,
            PjRef::Just(jr) => sub_at(p1, SubRef(just_at(p0, jr).parent)).lines@.len() >= 1,
        },
{
    match r {
        PjRef::Prem(pr) => {
            let s = prem_at(p0, pr).parent;
            assert(crate::document::prem_parent_ok(p0, pr.0));
            let a0 = sub_at(p0, SubRef(s)).premises@;
            assert(a0.contains(pr));
            let w = choose|w: int| 0 <= w < a0.len() && a0[w] == pr;
            assert(crate::document::sub_entries_ok(p0, s));
            lemma_pos_of(a0, pr, w);
            a0.remove_ensures(w);
        },
        PjRef::Just(jr) => {
            let s = just_at(p0, jr).parent;
            assert(crate::document::just_parent_ok(p0, jr.0));
            let l0 = sub_at(p0, SubRef(s)).lines@;
            assert(l0.contains(Line::Direct(jr)));
            let w = choose|w: int| 0 <= w < l0.len() && l0[w] == Line::Direct(jr);
            assert(crate::document::sub_entries_ok(p0, s));
            lemma_pos_of(l0, Line::Direct(jr), w);
            l0.remove_ensures(w);
        },
    }
}

/// An allowed `remove_subproof` leaves the parent sub-proof with at least
/// one line.
pub proof fn lemma_remove_subproof_keeps_floor(p0: Proof, p1: Proof, x: SubRef)
    requires
        wf(p0),
        may_remove_subproof_spec(p0, x),
        subproof_removed(p0, p1, x),
    ensures
        sub_at(p1, sub_at(p0, x).parent.unwrap()).lines@.len() >= 1,
{
    let ps = sub_at(p0, x).parent.unwrap().0;
    assert(crate::document::sub_parent_ok(p0, x.0));
    let l0 = sub_at(p0, SubRef(ps)).lines@;
    assert(l0.contains(Line::Sub(x)));
    let w = choose|w: int| 0 <= w < l0.len() && l0[w] == Line::Sub(x);
    assert(crate::document::sub_entries_ok(p0, ps));
    lemma_pos_of(l0, Line::Sub(x), w);
    l0.remove_ensures(w);
}

// ---------------------------------------------------------------------------
// Inserting a root premise shifts the flattened index by exactly one
// ---------------------------------------------------------------------------

/// The two documents agree on every sub-proof node except possibly the
/// premise list of the root.
pub open spec fn subs_agree_except_root_premises(p0: Proof, p1: Proof) -> bool {
    &&& p1.subs@.len() == p0.subs@.len()
    &&& forall|i: int| 0 < i < p0.subs@.len() ==> p1.subs@[i] == p0.subs@[i]
    &&& p0.subs@.len() >= 1
    &&& p0.subs@[0] is Some
    &&& p1.subs@[0] is Some
    &&& sub_at(p1, SubRef(0)).lines@ == sub_at(p0, SubRef(0)).lines@
}

proof fn lemma_flat_lines_agree(p0: Proof, p1: Proof, s: usize, i: int, d: int)
    requires
        subs_agree_except_root_premises(p0, p1),
        s < p0.subs@.len(),
    ensures
        flat_lines(p1, s, i, d) == flat_lines(p0, s, i, d),
    decreases p0.subs@.len() - s, sub_at(p0, SubRef(s)).lines@.len() - i,
{
    assert(sub_at(p1, SubRef(s)).lines@ == sub_at(p0, SubRef(s)).lines@) by {
        if s != 0 {
            assert(p1.subs@[s as int] == p0.subs@[s as int]);
        }
    }
    let lines = sub_at(p0, SubRef(s)).lines@;
    if i < 0 || i >= lines.len() {
    } else {
        lemma_flat_lines_agree(p0, p1, s, i + 1, d);
        match lines[i] {
            Line::Direct(_) => {},
            Line::Sub(c) => {
                if s < c.0 && c.0 < p0.subs@.len() {
                    lemma_flat_sub_agree(p0, p1, c.0, d + 1);
                }
            },
        }
    }
}

proof fn lemma_flat_sub_agree(p0: Proof, p1: Proof, s: usize, d: int)
    requires
        subs_agree_except_root_premises(p0, p1),
        s != 0,
        s < p0.subs@.len(),
    ensures
        flat_sub(p1, s, d) == flat_sub(p0, s, d),
    decreases p0.subs@.len() - s, sub_at(p0, SubRef(s)).lines@.len() + 1,
{
    assert(p1.subs@[s as int] == p0.subs@[s as int]);
    lemma_flat_lines_agree(p0, p1, s, 0, d);
    assert(flat_sub(p1, s, d) == flat_sub(p0, s, d));
}

/// Inserting a premise at position `pos` of the root's premise list places
/// its index row exactly at flattened position `pos`: every earlier row is
/// unchanged, every later row keeps its reference and depth and moves down
/// by exactly one.
pub proof fn lemma_root_premise_insert_shifts_index(
    p0: Proof,
    p1: Proof,
    pos: int,
    e: Expr,
    nr: PremRef,
)
    requires
        wf(p0),
        0 <= pos <= sub_at(p0, SubRef(0)).premises@.len(),
        premise_inserted(p0, p1, 0, pos, e, nr),
    ensures
        flat_doc(p1).len() == flat_doc(p0).len() + 1,
        flat_doc(p1)[pos] == (PjRef::Prem(nr), 0int),
        forall|m: int| 0 <= m < pos ==> flat_doc(p1)[m] == flat_doc(p0)[m],
        forall|m: int| pos < m < flat_doc(p0).len() + 1 ==> flat_doc(p1)[m] == flat_doc(p0)[m - 1],
{
    let a0 = sub_at(p0, SubRef(0)).premises@;
    let a1 = sub_at(p1, SubRef(0)).premises@;
    assert(a1 == a0.insert(pos, nr));
    a0.insert_ensures(pos, nr);
    assert(subs_agree_except_root_premises(p0, p1)) by {
        assert(sub_live(p1, SubRef(0)));
    }
    lemma_flat_lines_agree(p0, p1, 0, 0, 0);
    let f0 = flat_doc(p0);
    let f1 = flat_doc(p1);
    let pm0 = a0.map_values(|pr: PremRef| (PjRef::Prem(pr), 0int));
    let pm1 = a1.map_values(|pr: PremRef| (PjRef::Prem(pr), 0int));
    assert(f0 == pm0 + flat_lines(p0, 0, 0, 0));
    assert(f1 == pm1 + flat_lines(p0, 0, 0, 0));
    assert(pm1.len() == pm0.len() + 1);
    assert(f1[pos] == (PjRef::Prem(nr), 0int)) by {
        assert(a1[pos] == nr);
        assert(pm1[pos] == (PjRef::Prem(nr), 0int));
    }
    assert forall|m: int| 0 <= m < pos implies f1[m] == f0[m] by {
        assert(a1[m] == a0[m]);
        assert(pm1[m] == (PjRef::Prem(a0[m]), 0int));
        assert(pm0[m] == (PjRef::Prem(a0[m]), 0int));
    }
    assert forall|m: int| pos < m < f0.len() + 1 implies f1[m] == f0[m - 1] by {
        if m < pm1.len() {
            assert(a1[m] == a0[m - 1]);
            assert(pm1[m] == (PjRef::Prem(a0[m - 1]), 0int));
            assert(pm0[m - 1] == (PjRef::Prem(a0[m - 1]), 0int));
        } else {
            assert(f1[m] == flat_lines(p0, 0, 0, 0)[m - pm1.len()]);
            assert(f0[m - 1] == flat_lines(p0, 0, 0, 0)[m - 1 - pm0.len()]);
        }
    }
}

} // verus!
