//! Stable, typed references into a proof document.
//!
//! Every premise, justification and sub-proof is addressed by the index of
//! its slot in the document's arena. Slots are never reused: removal leaves
//! the slot permanently empty, so a stale reference is detected rather than
//! silently re-bound to an unrelated entity.

use vstd::prelude::*;

verus! {

/// Reference to a premise.
#[derive(Debug, Clone, Copy, PartialEq, Eq, Structural, Hash, PartialOrd, Ord)]
pub struct PremRef(pub usize);

/// Reference to a justification line.
#[derive(Debug, Clone, Copy, PartialEq, Eq, Structural, Hash, PartialOrd, Ord)]
pub struct JustRef(pub usize);

/// Reference to a sub-proof. Index 0 is always the root.
#[derive(Debug, Clone, Copy, PartialEq, Eq, Structural, Hash, PartialOrd, Ord)]
pub struct SubRef(pub usize);

/// A premise or a justification: the two things a direct-line dependency can
/// cite, and the two things that carry their own formula.
#[derive(Debug, Clone, Copy, PartialEq, Eq, Structural, Hash, PartialOrd, Ord)]
pub enum PjRef {
    Prem(PremRef),
    Just(JustRef),
}

/// A premise, a justification, or a sub-proof: anything that can serve as an
/// insertion point.
#[derive(Debug, Clone, Copy, PartialEq, Eq, Structural, Hash)]
pub enum PjsRef {
    Prem(PremRef),
    Just(JustRef),
    Sub(SubRef),
}

/// A justification or a sub-proof: the two kinds of entry in a sub-proof's
/// line sequence.
#[derive(Debug, Clone, Copy, PartialEq, Eq, Structural, Hash)]
pub enum JsRef {
    Just(JustRef),
    Sub(SubRef),
}

/// What a dependency citation can point at: a single earlier line, or a whole
/// closed sub-proof cited as a range.
#[derive(Debug, Clone, Copy, PartialEq, Eq, Structural, Hash)]
pub enum DepRef {
    Line(PjRef),
    Sub(SubRef),
}

/// One entry in a sub-proof's ordered line sequence.
#[derive(Debug, Clone, Copy, PartialEq, Eq, Structural, Hash)]
pub enum Line {
    Direct(JustRef),
    Sub(SubRef),
}

/// Widens a premise-or-justification reference into the union that also
/// admits sub-proofs.
pub fn pj_to_pjs(r: PjRef) -> (s: PjsRef)
    ensures
        s == pj_to_pjs_spec(r),
{
    match r {
        PjRef::Prem(p) => PjsRef::Prem(p),
        PjRef::Just(j) => PjsRef::Just(j),
    }
}

/// What `pj_to_pjs` returns.
pub open spec fn pj_to_pjs_spec(r: PjRef) -> PjsRef {
    match r {
        PjRef::Prem(p) => PjsRef::Prem(p),
        PjRef::Just(j) => PjsRef::Just(j),
    }
}

} // verus!
