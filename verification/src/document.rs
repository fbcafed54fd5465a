//! The proof document: an arena of premise, justification and sub-proof
//! slots, with sub-proof nodes holding ordered reference lists. Slots are
//! append-only and removal empties a slot for good, so references stay
//! stable and a stale one is detected rather than re-bound.

use vstd::prelude::*;
use crate::expr::Expr;
use crate::refs::{PremRef, JustRef, SubRef, PjRef, PjsRef, Line};
use crate::rules::Rule;

verus! {

/// An assumption, owned by the sub-proof `parent`.
#[derive(Debug, PartialEq, Eq)]
pub struct Premise {
    pub expr: Expr,
    pub parent: usize,
}

/// A derived step: a conclusion, the rule that is claimed to justify it, and
/// the citations handed to that rule. `deps` cite single earlier lines;
/// `sdeps` cite whole closed sub-proofs as ranges.
#[derive(Debug, PartialEq, Eq)]
pub struct Justification {
    pub conclusion: Expr,
    pub rule: Rule,
    pub deps: Vec<PjRef>,
    pub sdeps: Vec<SubRef>,
}

/// A stored justification together with its owning sub-proof.
#[derive(Debug, PartialEq, Eq)]
pub struct JustEntry {
    pub just: Justification,
    pub parent: usize,
}

/// A sub-proof: ordered assumptions followed by an ordered line sequence.
/// `parent` is `None` exactly for the root.
#[derive(Debug, PartialEq, Eq)]
pub struct SubproofNode {
    pub premises: Vec<PremRef>,
    pub lines: Vec<Line>,
    pub parent: Option<SubRef>,
}

/// The proof document. The fields are open so that an external decoder can
/// assemble a document directly; every operation accepts any value
/// satisfying `wf`, regardless of origin.
#[derive(Debug, PartialEq, Eq)]
pub struct Proof {
    pub prems: Vec<Option<Premise>>,
    pub justs: Vec<Option<JustEntry>>,
    pub subs: Vec<Option<SubproofNode>>,
}

impl Justification {
    /// A copy whose fields are known to equal the original's.
    pub fn duplicate(&self) -> (r: Justification)
        ensures
            r.conclusion == self.conclusion,
            r.rule == self.rule,
            r.deps@ == self.deps@,
            r.sdeps@ == self.sdeps@,
    {
        let mut deps: Vec<PjRef> = Vec::new();
        let mut i: usize = 0;
        while i < self.deps.len()
            invariant
                i <= self.deps@.len(),
                deps@ == self.deps@.take(i as int),
            decreases self.deps@.len() - i,
        {
            deps.push(self.deps[i]);
            proof {
                assert(deps@ =~= self.deps@.take(i as int + 1));
            }
            i += 1;
        }
        let mut sdeps: Vec<SubRef> = Vec::new();
        let mut k: usize = 0;
        while k < self.sdeps.len()
            invariant
                k <= self.sdeps@.len(),
                sdeps@ == self.sdeps@.take(k as int),
            decreases self.sdeps@.len() - k,
        {
            sdeps.push(self.sdeps[k]);
            proof {
                assert(sdeps@ =~= self.sdeps@.take(k as int + 1));
            }
            k += 1;
        }
        proof {
            assert(deps@ =~= self.deps@);
            assert(sdeps@ =~= self.sdeps@);
        }
        Justification { conclusion: self.conclusion.duplicate(), rule: self.rule, deps, sdeps }
    }
}

// ---------------------------------------------------------------------------
// Liveness and access
// ---------------------------------------------------------------------------

pub open spec fn prem_live(p: Proof, r: PremRef) -> bool {
    r.0 < p.prems@.len() && p.prems@[r.0 as int] is Some
}

pub open spec fn prem_at(p: Proof, r: PremRef) -> Premise {
    p.prems@[r.0 as int].unwrap()
}

pub open spec fn just_live(p: Proof, r: JustRef) -> bool {
    r.0 < p.justs@.len() && p.justs@[r.0 as int] is Some
}

pub open spec fn just_at(p: Proof, r: JustRef) -> JustEntry {
    p.justs@[r.0 as int].unwrap()
}

pub open spec fn sub_live(p: Proof, r: SubRef) -> bool {
    r.0 < p.subs@.len() && p.subs@[r.0 as int] is Some
}

pub open spec fn sub_at(p: Proof, r: SubRef) -> SubproofNode {
    p.subs@[r.0 as int].unwrap()
}

pub open spec fn pj_live(p: Proof, r: PjRef) -> bool {
    match r {
        PjRef::Prem(pr) => prem_live(p, pr),
        PjRef::Just(jr) => just_live(p, jr),
    }
}

/// The sub-proof that owns a live premise or justification.
pub open spec fn pj_owner(p: Proof, r: PjRef) -> usize {
    match r {
        PjRef::Prem(pr) => prem_at(p, pr).parent,
        PjRef::Just(jr) => just_at(p, jr).parent,
    }
}

/// The expression a live premise or justification carries.
pub open spec fn pj_expr(p: Proof, r: PjRef) -> Expr {
    match r {
        PjRef::Prem(pr) => prem_at(p, pr).expr,
        PjRef::Just(jr) => just_at(p, jr).just.conclusion,
    }
}

// ---------------------------------------------------------------------------
// Well-formedness
// ---------------------------------------------------------------------------

/// No element occurs twice.
pub open spec fn distinct_seq<T>(s: Seq<T>) -> bool {
    forall|i: int, j: int| 0 <= i < j < s.len() ==> s[i] != s[j]
}

/// A line listed by the live sub-proof `i` addresses a live entity that
/// points back to `i`; nested sub-proofs were created after their parent.
pub open spec fn line_ok(p: Proof, i: usize, l: Line) -> bool {
    match l {
        Line::Direct(j) => just_live(p, j) && just_at(p, j).parent == i,
        Line::Sub(c) => sub_live(p, c) && sub_at(p, c).parent == Some(SubRef(i)) && c.0 > i,
    }
}

/// Everything the live sub-proof `i` lists is live, points back to `i`, and
/// is listed once.
pub open spec fn sub_entries_ok(p: Proof, i: usize) -> bool {
    let s = sub_at(p, SubRef(i));
    &&& forall|k: int| 0 <= k < s.premises@.len()
        ==> prem_live(p, #[trigger] s.premises@[k]) && prem_at(p, s.premises@[k]).parent == i
    &&& distinct_seq(s.premises@)
    &&& forall|k: int| 0 <= k < s.lines@.len() ==> line_ok(p, i, #[trigger] s.lines@[k])
    &&& distinct_seq(s.lines@)
}

/// A live premise is listed by its live parent.
pub open spec fn prem_parent_ok(p: Proof, x: usize) -> bool {
    let e = p.prems@[x as int].unwrap();
    sub_live(p, SubRef(e.parent))
        && sub_at(p, SubRef(e.parent)).premises@.contains(PremRef(x))
}

/// A live justification is listed by its live parent, and its citation lists
/// hold no duplicates.
pub open spec fn just_parent_ok(p: Proof, x: usize) -> bool {
    let e = p.justs@[x as int].unwrap();
    &&& sub_live(p, SubRef(e.parent))
    &&& sub_at(p, SubRef(e.parent)).lines@.contains(Line::Direct(JustRef(x)))
    &&& distinct_seq(e.just.deps@)
    &&& distinct_seq(e.just.sdeps@)
}

/// A live non-root sub-proof is listed as a line by its live, older parent;
/// the root has no parent.
pub open spec fn sub_parent_ok(p: Proof, x: usize) -> bool {
    let e = p.subs@[x as int].unwrap();
    if x == 0 {
        e.parent is None
    } else {
        &&& e.parent is Some
        &&& e.parent.unwrap().0 < x
        &&& sub_live(p, e.parent.unwrap())
        &&& sub_at(p, e.parent.unwrap()).lines@.contains(Line::Sub(SubRef(x)))
    }
}

/// Document well-formedness: the root exists, ownership lists and parent
/// pointers agree, everything listed is live, nothing is listed twice, and
/// nesting always points from older to newer slots.
pub open spec fn wf(p: Proof) -> bool {
    &&& p.subs@.len() >= 1
    &&& p.subs@[0] is Some
    &&& forall|i: usize| i < p.subs@.len() && (#[trigger] p.subs@[i as int]) is Some
        ==> sub_entries_ok(p, i)
    &&& forall|x: usize| x < p.prems@.len() && (#[trigger] p.prems@[x as int]) is Some
        ==> prem_parent_ok(p, x)
    &&& forall|x: usize| x < p.justs@.len() && (#[trigger] p.justs@[x as int]) is Some
        ==> just_parent_ok(p, x)
    &&& forall|x: usize| x < p.subs@.len() && (#[trigger] p.subs@[x as int]) is Some
        ==> sub_parent_ok(p, x)
}

// ---------------------------------------------------------------------------
// Ancestry
// ---------------------------------------------------------------------------

/// Whether sub-proof `x` lies in the subtree rooted at sub-proof `s`
/// (including `x == s`), following parent pointers.
pub open spec fn in_subtree(p: Proof, x: usize, s: usize) -> bool
    decreases x,
{
    if x == s {
        true
    } else if !sub_live(p, SubRef(x)) {
        false
    } else {
        match sub_at(p, SubRef(x)).parent {
            Option::None => false,
            Option::Some(pp) => pp.0 < x && in_subtree(p, pp.0, s),
        }
    }
}

/// On the parent chain from `x` up to the strict ancestor `a`, the child of
/// `a` through which the chain passes.
pub open spec fn chain_child(p: Proof, x: usize, a: usize) -> usize
    decreases x,
{
    if !sub_live(p, SubRef(x)) {
        x
    } else {
        match sub_at(p, SubRef(x)).parent {
            Option::None => x,
            Option::Some(pp) => if pp.0 == a {
                x
            } else if pp.0 < x {
                chain_child(p, pp.0, a)
            } else {
                x
            },
        }
    }
}

/// An ancestor's slot index never exceeds a descendant's.
pub proof fn lemma_in_subtree_le(p: Proof, x: usize, s: usize)
    requires
        in_subtree(p, x, s),
    ensures
        s <= x,
    decreases x,
{
    if x != s {
        let pp = sub_at(p, SubRef(x)).parent.unwrap();
        lemma_in_subtree_le(p, pp.0, s);
    }
}

/// The chain child of a strict ancestor is a live sub-proof, lies in the
/// ancestor's subtree together with the start of the chain, and its parent
/// is the ancestor.
pub proof fn lemma_chain_child(p: Proof, x: usize, a: usize)
    requires
        in_subtree(p, x, a),
        x != a,
        sub_live(p, SubRef(x)),
    ensures
        sub_live(p, SubRef(chain_child(p, x, a))),
        sub_at(p, SubRef(chain_child(p, x, a))).parent == Some(SubRef(a)),
        chain_child(p, x, a) != a ==> in_subtree(p, x, chain_child(p, x, a)),
        in_subtree(p, x, chain_child(p, x, a)),
    decreases x,
{
    let pp = sub_at(p, SubRef(x)).parent.unwrap();
    if pp.0 == a {
    } else {
        assert(in_subtree(p, pp.0, a));
        assert(pp.0 != a);
        assert(sub_live(p, SubRef(pp.0)));
        lemma_chain_child(p, pp.0, a);
    }
}

/// Being in a child's subtree puts one in the parent's subtree.
pub proof fn lemma_in_subtree_step(p: Proof, x: usize, c: usize, a: usize)
    requires
        in_subtree(p, x, c),
        sub_live(p, SubRef(c)),
        sub_at(p, SubRef(c)).parent == Some(SubRef(a)),
        a < c,
    ensures
        in_subtree(p, x, a),
    decreases x,
{
    if x == c {
        assert(in_subtree(p, c, a)) by {
            reveal_with_fuel(in_subtree, 2);
        }
    } else {
        let pp = sub_at(p, SubRef(x)).parent.unwrap();
        lemma_in_subtree_step(p, pp.0, c, a);
    }
}

/// A member of `s`'s subtree other than `s` itself reaches `s` through one
/// of `s`'s own children.
pub proof fn lemma_in_subtree_via_child(p: Proof, x: usize, s: usize)
    requires
        in_subtree(p, x, s),
        x != s,
    ensures
        sub_live(p, SubRef(x)),
        exists|c: usize|
            sub_live(p, SubRef(c)) && sub_at(p, SubRef(c)).parent == Some(SubRef(s))
                && #[trigger] in_subtree(p, x, c),
    decreases x,
{
    let pp = sub_at(p, SubRef(x)).parent.unwrap();
    if pp.0 == s {
        assert(in_subtree(p, x, x));
        assert(sub_live(p, SubRef(x)) && sub_at(p, SubRef(x)).parent == Some(SubRef(s))
            && in_subtree(p, x, x));
    } else {
        lemma_in_subtree_via_child(p, pp.0, s);
        let c = choose|c: usize|
            sub_live(p, SubRef(c)) && sub_at(p, SubRef(c)).parent == Some(SubRef(s))
                && #[trigger] in_subtree(p, pp.0, c);
        assert(in_subtree(p, x, c)) by {
            reveal_with_fuel(in_subtree, 2);
            assert(sub_live(p, SubRef(x)));
            assert(pp.0 < x);
            assert(in_subtree(p, pp.0, c));
        }
    }
}

// ---------------------------------------------------------------------------
// Construction and lookups
// ---------------------------------------------------------------------------

impl Proof {
    /// A document holding just the empty root sub-proof.
    pub fn new() -> (p: Proof)
        ensures
            wf(p),
            p.prems@ == Seq::<Option<Premise>>::empty(),
            p.justs@ == Seq::<Option<JustEntry>>::empty(),
            p.subs@.len() == 1,
            sub_at(p, SubRef(0)).premises@ == Seq::<PremRef>::empty(),
            sub_at(p, SubRef(0)).lines@ == Seq::<Line>::empty(),
    {
        let root = SubproofNode { premises: Vec::new(), lines: Vec::new(), parent: None };
        let mut subs: Vec<Option<SubproofNode>> = Vec::new();
        subs.push(Some(root));
        let p = Proof { prems: Vec::new(), justs: Vec::new(), subs };
        proof {
            assert(p.subs@[0] is Some);
            assert forall|i: usize| i < p.subs@.len() && (#[trigger] p.subs@[i as int]) is Some
                implies sub_entries_ok(p, i) by {
                assert(i == 0);
                assert(sub_at(p, SubRef(0)).premises@.len() == 0);
                assert(sub_at(p, SubRef(0)).lines@.len() == 0);
            }
            assert forall|x: usize| x < p.subs@.len() && (#[trigger] p.subs@[x as int]) is Some
                implies sub_parent_ok(p, x) by {
                assert(x == 0);
            }
        }
        p
    }

    /// Resolves a premise reference; absent for a stale or unknown one.
    pub fn lookup_premise(&self, r: &PremRef) -> (res: Option<&Expr>)
        ensures
            match res {
                Some(e) => prem_live(*self, *r) && *e == prem_at(*self, *r).expr,
                None => !prem_live(*self, *r),
            },
    {
        if r.0 < self.prems.len() {
            match &self.prems[r.0] {
                Some(prem) => Some(&prem.expr),
                None => None,
            }
        } else {
            None
        }
    }

    /// Resolves a justification reference; absent for a stale or unknown one.
    pub fn lookup_justification(&self, r: &JustRef) -> (res: Option<&Justification>)
        ensures
            match res {
                Some(j) => just_live(*self, *r) && *j == just_at(*self, *r).just,
                None => !just_live(*self, *r),
            },
    {
        if r.0 < self.justs.len() {
            match &self.justs[r.0] {
                Some(e) => Some(&e.just),
                None => None,
            }
        } else {
            None
        }
    }

    /// Resolves a sub-proof reference; absent for a stale or unknown one.
    pub fn lookup_subproof(&self, r: &SubRef) -> (res: Option<&SubproofNode>)
        ensures
            match res {
                Some(n) => sub_live(*self, *r) && *n == sub_at(*self, *r),
                None => !sub_live(*self, *r),
            },
    {
        if r.0 < self.subs.len() {
            match &self.subs[r.0] {
                Some(n) => Some(n),
                None => None,
            }
        } else {
            None
        }
    }

    /// The root sub-proof.
    pub fn top_level_proof(&self) -> (res: &SubproofNode)
        requires
            wf(*self),
        ensures
            *res == sub_at(*self, SubRef(0)),
    {
        self.subs[0].as_ref().unwrap()
    }

    /// The root's premise list.
    pub fn premises(&self) -> (res: &Vec<PremRef>)
        requires
            wf(*self),
        ensures
            res@ == sub_at(*self, SubRef(0)).premises@,
    {
        &self.top_level_proof().premises
    }

    /// The root's line sequence.
    pub fn lines(&self) -> (res: &Vec<Line>)
        requires
            wf(*self),
        ensures
            res@ == sub_at(*self, SubRef(0)).lines@,
    {
        &self.top_level_proof().lines
    }

    /// The sub-proof containing the line `r` addresses; absent for a stale
    /// reference and for root-level lines, the root itself included.
    pub fn parent_of_line(&self, r: &PjsRef) -> (res: Option<SubRef>)
        ensures
            res == parent_of_line_spec(*self, *r),
    {
        match r {
            PjsRef::Prem(pr) => {
                if pr.0 < self.prems.len() {
                    match &self.prems[pr.0] {
                        Some(e) => if e.parent != 0 { Some(SubRef(e.parent)) } else { None },
                        None => None,
                    }
                } else {
                    None
                }
            },
            PjsRef::Just(jr) => {
                if jr.0 < self.justs.len() {
                    match &self.justs[jr.0] {
                        Some(e) => if e.parent != 0 { Some(SubRef(e.parent)) } else { None },
                        None => None,
                    }
                } else {
                    None
                }
            },
            PjsRef::Sub(sr) => {
                if sr.0 < self.subs.len() {
                    match &self.subs[sr.0] {
                        Some(n) => match n.parent {
                            Some(pp) => if pp.0 != 0 { Some(pp) } else { None },
                            None => None,
                        },
                        None => None,
                    }
                } else {
                    None
                }
            },
        }
    }
}

/// What `parent_of_line` returns: the non-root sub-proof whose line sequence
/// the addressed line belongs to.
pub open spec fn parent_of_line_spec(p: Proof, r: PjsRef) -> Option<SubRef> {
    match r {
        PjsRef::Prem(pr) => if prem_live(p, pr) && prem_at(p, pr).parent != 0 {
            Some(SubRef(prem_at(p, pr).parent))
        } else {
            None
        },
        PjsRef::Just(jr) => if just_live(p, jr) && just_at(p, jr).parent != 0 {
            Some(SubRef(just_at(p, jr).parent))
        } else {
            None
        },
        PjsRef::Sub(sr) => if sub_live(p, sr) && sub_at(p, sr).parent is Some
            && sub_at(p, sr).parent.unwrap().0 != 0 {
            sub_at(p, sr).parent
        } else {
            None
        },
    }
}

} // verus!
