//! The line/depth index: a full depth-first traversal assigns every premise
//! and justification a flattened line number — a sub-proof's premises before
//! its lines, numbered from one — and a nesting depth, the root at zero.
//! The index is derived state: it is recomputed from the document on demand
//! and owns nothing.

use vstd::prelude::*;
use crate::document::{Proof, sub_live, sub_at, sub_entries_ok, line_ok, wf};
use crate::refs::{PremRef, SubRef, PjRef, Line};

verus! {

/// One row of the index: a line's reference, its flattened number and its
/// nesting depth.
#[derive(Debug, Clone, Copy, PartialEq, Eq, Structural, Hash)]
pub struct LineInfo {
    pub re: PjRef,
    pub line: usize,
    pub depth: usize,
}

/// The flattened traversal of the subtree of sub-proof `s`, whose own
/// entries carry depth `d`: first `s`'s premises, then its lines in order,
/// each nested sub-proof flattened in place one level deeper.
pub open spec fn flat_sub(p: Proof, s: usize, d: int) -> Seq<(PjRef, int)>
    decreases p.subs@.len() - s, sub_at(p, SubRef(s)).lines@.len() + 1,
{
    sub_at(p, SubRef(s)).premises@.map_values(|pr: PremRef| (PjRef::Prem(pr), d)) + flat_lines(
        p,
        s,
        0,
        d,
    )
}

/// The flattened traversal of the lines of sub-proof `s` from index `i` on.
pub open spec fn flat_lines(p: Proof, s: usize, i: int, d: int) -> Seq<(PjRef, int)>
    decreases p.subs@.len() - s, sub_at(p, SubRef(s)).lines@.len() - i,
{
    let lines = sub_at(p, SubRef(s)).lines@;
    if i < 0 || i >= lines.len() {
        Seq::empty()
    } else {
        let rest = flat_lines(p, s, i + 1, d);
        match lines[i] {
            Line::Direct(j) => seq![(PjRef::Just(j), d)] + rest,
            Line::Sub(c) => if s < c.0 && c.0 < p.subs@.len() {
                flat_sub(p, c.0, d + 1) + rest
            } else {
                rest
            },
        }
    }
}

/// The whole document's flattened traversal.
pub open spec fn flat_doc(p: Proof) -> Seq<(PjRef, int)> {
    flat_sub(p, 0, 0)
}

impl Proof {
    /// Appends the subtree of `s` (entries at depth `d`) to `out`.
    fn index_sub(&self, s: usize, d: usize, out: &mut Vec<(PjRef, usize)>)
        requires
            wf(*self),
            sub_live(*self, SubRef(s)),
            d <= s,
        ensures
            final(out)@.len() == old(out)@.len() + flat_sub(*self, s, d as int).len(),
            forall|k: int| 0 <= k < old(out)@.len() ==> #[trigger] final(out)@[k] == old(out)@[k],
            forall|k: int| 0 <= k < flat_sub(*self, s, d as int).len()
                ==> #[trigger] final(out)@[old(out)@.len() + k].0 == flat_sub(
                *self,
                s,
                d as int,
            )[k].0 && final(out)@[old(out)@.len() + k].1 == flat_sub(*self, s, d as int)[k].1,
        decreases self.subs@.len() - s, sub_at(*self, SubRef(s)).lines@.len() + 1,
    {
        let ghost p = *self;
        let ghost base = out@.len() as int;
        let ghost plen = sub_at(*self, SubRef(s)).premises@.len() as int;
        proof {
            assert(sub_entries_ok(p, s));
        }
        let node = self.subs[s].as_ref().unwrap();
        let ghost prems_part = node.premises@.map_values(|pr: PremRef| (PjRef::Prem(pr), d as int));

        let mut i: usize = 0;
        while i < node.premises.len()
            invariant
                wf(p),
                p == *self,
                sub_live(p, SubRef(s)),
                *node == sub_at(p, SubRef(s)),
                base == old(out)@.len(),
                plen == node.premises@.len(),
                i <= node.premises@.len(),
                out@.len() == base + i,
                forall|k: int| 0 <= k < base ==> #[trigger] out@[k] == old(out)@[k],
                forall|k: int| 0 <= k < i ==> #[trigger] out@[base + k] == (
                    PjRef::Prem(node.premises@[k]),
                    d,
                ),
            decreases node.premises@.len() - i,
        {
            out.push((PjRef::Prem(node.premises[i]), d));
            i += 1;
        }

        let mut k: usize = 0;
        while k < node.lines.len()
            invariant
                wf(p),
                p == *self,
                sub_live(p, SubRef(s)),
                *node == sub_at(p, SubRef(s)),
                d <= s,
                base == old(out)@.len(),
                plen == node.premises@.len(),
                k <= node.lines@.len(),
                out@.len() == base + plen + flat_lines(p, s, 0, d as int).len()
                    - flat_lines(p, s, k as int, d as int).len(),
                flat_lines(p, s, k as int, d as int).len() <= flat_lines(p, s, 0, d as int).len(),
                forall|k2: int| 0 <= k2 < base ==> #[trigger] out@[k2] == old(out)@[k2],
                plen == node.premises@.len(),
                forall|k2: int| 0 <= k2 < plen ==> #[trigger] out@[base + k2] == (
                    PjRef::Prem(node.premises@[k2]),
                    d,
                ),
                forall|k2: int| 0 <= k2 < flat_lines(p, s, 0, d as int).len() - flat_lines(
                    p,
                    s,
                    k as int,
                    d as int,
                ).len() ==> #[trigger] out@[base + plen + k2].0 == flat_lines(
                    p,
                    s,
                    0,
                    d as int,
                )[k2].0 && out@[base + plen + k2].1 == flat_lines(
                    p,
                    s,
                    0,
                    d as int,
                )[k2].1,
            decreases node.lines@.len() - k,
        {
            proof {
                assert(sub_entries_ok(p, s));
                assert(line_ok(p, s, node.lines@[k as int]));
                lemma_flat_lines_prefix(p, s, 0, k as int, d as int);
            }
            let ghost pre = out@;
            let ghost f0 = flat_lines(p, s, 0, d as int);
            let ghost fk = flat_lines(p, s, k as int, d as int);
            let ghost fk1 = flat_lines(p, s, k as int + 1, d as int);
            let ghost armlen = fk.len() - fk1.len();
            match &node.lines[k] {
                Line::Direct(j) => {
                    proof {
                        assert(fk == seq![(PjRef::Just(*j), d as int)] + fk1);
                    }
                    out.push((PjRef::Just(*j), d));
                },
                Line::Sub(c) => {
                    proof {
                        assert(c.0 > s && c.0 < p.subs@.len());
                        assert(fk == flat_sub(p, c.0, d as int + 1) + fk1);
                    }
                    self.index_sub(c.0, d + 1, out);
                },
            }
            proof {
                lemma_flat_lines_prefix(p, s, 0, k as int + 1, d as int);
                let start = f0.len() - fk.len();
                assert(out@.len() == pre.len() + armlen);
                assert(pre.len() == base + plen + start);
                assert forall|k2: int| 0 <= k2 < f0.len() - fk1.len()
                    implies (#[trigger] out@[base + plen + k2]).0 == f0[k2].0
                        && out@[base + plen + k2].1 == f0[k2].1 by {
                    if k2 < start {
                        assert(out@[base + plen + k2] == pre[base + plen + k2]);
                        assert((pre[base + plen + k2]).0 == f0[k2].0);
                        assert((pre[base + plen + k2]).1 == f0[k2].1);
                    } else {
                        assert(f0[k2] == fk[k2 - start]);
                        assert(base + plen + k2 == pre.len() + (k2 - start));
                        match node.lines@[k as int] {
                            Line::Direct(j) => {
                                assert(fk[0] == (PjRef::Just(j), d as int));
                                assert(k2 == start);
                                assert(out@[pre.len() as int] == (PjRef::Just(j), d));
                                assert((out@[base + plen + k2]).0 == f0[k2].0);
                                assert(out@[base + plen + k2].1 == f0[k2].1);
                            },
                            Line::Sub(c) => {
                                assert(fk[k2 - start] == flat_sub(p, c.0, d as int + 1)[k2
                                    - start]);
                                assert(out@[pre.len() + (k2 - start)].0 == flat_sub(
                                    p,
                                    c.0,
                                    d as int + 1,
                                )[k2 - start].0);
                                assert(out@[pre.len() + (k2 - start)].1 == flat_sub(
                                    p,
                                    c.0,
                                    d as int + 1,
                                )[k2 - start].1);
                                assert((out@[base + plen + k2]).0 == f0[k2].0);
                                assert(out@[base + plen + k2].1 == f0[k2].1);
                            },
                        }
                    }
                }
            }
            k += 1;
        }
        proof {
            assert(flat_lines(p, s, node.lines@.len() as int, d as int) =~= Seq::empty());
            lemma_flat_sub_parts(p, s, d as int);
            let f0 = flat_lines(p, s, 0, d as int);
            let whole2 = flat_sub(p, s, d as int);
            assert(out@.len() == base + whole2.len());
            assert forall|k: int| 0 <= k < whole2.len()
                implies (#[trigger] out@[base + k]).0 == whole2[k].0 && out@[base + k].1
                    == whole2[k].1 by {
                if k < plen {
                    assert(out@[base + k] == (PjRef::Prem(node.premises@[k]), d));
                    assert(whole2[k] == (PjRef::Prem(sub_at(p, SubRef(s)).premises@[k]), d as int));
                } else {
                    assert(whole2[k] == f0[k - plen]);
                    assert((out@[base + plen + (k - plen)]).0 == f0[k - plen].0);
                    assert(out@[base + plen + (k - plen)].1 == f0[k - plen].1);
                }
            }
        }
    }

    /// The line/depth index: every premise and justification in traversal
    /// order, numbered from one, with its nesting depth.
    pub fn line_depth_index(&self) -> (out: Vec<LineInfo>)
        requires
            wf(*self),
        ensures
            out@.len() == flat_doc(*self).len(),
            forall|k: int| 0 <= k < out@.len() ==> (#[trigger] out@[k]).re == flat_doc(*self)[k].0
                && out@[k].line == k + 1 && out@[k].depth == flat_doc(*self)[k].1,
    {
        let mut raw: Vec<(PjRef, usize)> = Vec::new();
        self.index_sub(0, 0, &mut raw);
        proof {
            assert forall|m: int| 0 <= m < raw@.len() implies (#[trigger] raw@[m]).0 == flat_doc(
                *self,
            )[m].0 && raw@[m].1 == flat_doc(*self)[m].1 by {
                assert(raw@[0 + m].0 == flat_sub(*self, 0, 0)[m].0 && raw@[0 + m].1 == flat_sub(
                    *self,
                    0,
                    0,
                )[m].1);
            }
        }
        let mut out: Vec<LineInfo> = Vec::new();
        let mut k: usize = 0;
        while k < raw.len()
            invariant
                raw@.len() == flat_doc(*self).len(),
                forall|m: int| 0 <= m < raw@.len() ==> (#[trigger] raw@[m]).0 == flat_doc(
                    *self,
                )[m].0 && raw@[m].1 == flat_doc(*self)[m].1,
                k <= raw@.len(),
                out@.len() == k,
                forall|m: int| 0 <= m < k ==> (#[trigger] out@[m]).re == flat_doc(*self)[m].0
                    && out@[m].line == m + 1 && out@[m].depth == flat_doc(*self)[m].1,
            decreases raw@.len() - k,
        {
            let (re, depth) = raw[k];
            out.push(LineInfo { re, line: k + 1, depth });
            k += 1;
        }
        out
    }
}

/// The flattened lines from `i` on are a suffix: splitting at any `k`
/// between `i` and the end decomposes them into the part up to `k` and the
/// part from `k` on.
proof fn lemma_flat_lines_prefix(p: Proof, s: usize, i: int, k: int, d: int)
    requires
        0 <= i <= k <= sub_at(p, SubRef(s)).lines@.len(),
    ensures
        flat_lines(p, s, i, d).len() >= flat_lines(p, s, k, d).len(),
        forall|m: int| 0 <= m < flat_lines(p, s, k, d).len()
            ==> #[trigger] flat_lines(p, s, k, d)[m] == flat_lines(p, s, i, d)[flat_lines(
            p,
            s,
            i,
            d,
        ).len() - flat_lines(p, s, k, d).len() + m],
    decreases k - i,
{
    if i < k {
        lemma_flat_lines_prefix(p, s, i + 1, k, d);
        let cur = flat_lines(p, s, i, d);
        let next = flat_lines(p, s, i + 1, d);
        let fin = flat_lines(p, s, k, d);
        assert(cur.len() >= next.len());
        assert forall|m: int| 0 <= m < fin.len() implies #[trigger] fin[m] == cur[cur.len()
            - fin.len() + m] by {
            assert(fin[m] == next[next.len() - fin.len() + m]);
        }
    }
}

/// `flat_sub` splits into the premise block and the flattened lines.
proof fn lemma_flat_sub_parts(p: Proof, s: usize, d: int)
    ensures
        flat_sub(p, s, d).len() == sub_at(p, SubRef(s)).premises@.len() + flat_lines(
            p,
            s,
            0,
            d,
        ).len(),
        forall|m: int| 0 <= m < sub_at(p, SubRef(s)).premises@.len() ==> #[trigger] flat_sub(
            p,
            s,
            d,
        )[m] == (PjRef::Prem(sub_at(p, SubRef(s)).premises@[m]), d),
        forall|m: int| 0 <= m < flat_lines(p, s, 0, d).len() ==> #[trigger] flat_sub(p, s, d)[sub_at(
            p,
            SubRef(s),
        ).premises@.len() + m] == flat_lines(p, s, 0, d)[m],
{
    let prems = sub_at(p, SubRef(s)).premises@.map_values(|pr: PremRef| (PjRef::Prem(pr), d));
    assert(flat_sub(p, s, d) == prems + flat_lines(p, s, 0, d));
    assert(prems.len() == sub_at(p, SubRef(s)).premises@.len());
}

} // verus!
