//! Small facts about sequence surgery — insertion, removal, de-duplication —
//! used by the mutation operations to re-establish document well-formedness.

use vstd::prelude::*;
use crate::document::distinct_seq;

verus! {

/// What insertion does to membership.
pub proof fn lemma_insert_contains<T>(s: Seq<T>, i: int, x: T)
    requires
        0 <= i <= s.len(),
    ensures
        s.insert(i, x).contains(x),
        forall|e: T| s.contains(e) ==> #[trigger] s.insert(i, x).contains(e),
        forall|e: T| #[trigger] s.insert(i, x).contains(e) ==> e == x || s.contains(e),
{
    s.insert_ensures(i, x);
    let t = s.insert(i, x);
    assert(t[i] == x);
    assert(t.contains(x));
    assert forall|e: T| s.contains(e) implies #[trigger] t.contains(e) by {
        let k = choose|k: int| 0 <= k < s.len() && s[k] == e;
        if k < i {
            assert(t[k] == e);
        } else {
            assert(t[k + 1] == e);
        }
    }
    assert forall|e: T| #[trigger] t.contains(e) implies e == x || s.contains(e) by {
        let k = choose|k: int| 0 <= k < t.len() && t[k] == e;
        if k < i {
            assert(s[k] == e);
        } else if k > i {
            assert(s[k - 1] == e);
        }
    }
}

/// Inserting a fresh element keeps a duplicate-free sequence duplicate-free.
pub proof fn lemma_insert_distinct<T>(s: Seq<T>, i: int, x: T)
    requires
        0 <= i <= s.len(),
        distinct_seq(s),
        !s.contains(x),
    ensures
        distinct_seq(s.insert(i, x)),
{
    s.insert_ensures(i, x);
    let t = s.insert(i, x);
    assert forall|a: int, b: int| 0 <= a < b < t.len() implies t[a] != t[b] by {
        if a < i && b < i {
        } else if a < i && b == i {
            assert(t[a] == s[a] && s.contains(s[a]));
        } else if a < i && b > i {
            assert(t[a] == s[a] && t[b] == s[b - 1]);
        } else if a == i {
            assert(t[b] == s[b - 1] && s.contains(s[b - 1]));
        } else {
            assert(t[a] == s[a - 1] && t[b] == s[b - 1]);
        }
    }
}

/// What removal does to membership and distinctness.
pub proof fn lemma_remove_facts<T>(s: Seq<T>, i: int)
    requires
        0 <= i < s.len(),
        distinct_seq(s),
    ensures
        distinct_seq(s.remove(i)),
        !s.remove(i).contains(s[i]),
        forall|e: T| #[trigger] s.remove(i).contains(e) ==> s.contains(e),
        forall|e: T| s.contains(e) && e != s[i] ==> #[trigger] s.remove(i).contains(e),
{
    s.remove_ensures(i);
    let t = s.remove(i);
    assert forall|a: int, b: int| 0 <= a < b < t.len() implies t[a] != t[b] by {
        if b < i {
        } else if a < i {
            assert(t[a] == s[a] && t[b] == s[b + 1]);
        } else {
            assert(t[a] == s[a + 1] && t[b] == s[b + 1]);
        }
    }
    assert forall|e: T| #[trigger] t.contains(e) implies s.contains(e) by {
        let k = choose|k: int| 0 <= k < t.len() && t[k] == e;
        if k < i {
            assert(s[k] == e);
        } else {
            assert(s[k + 1] == e);
        }
    }
    if t.contains(s[i]) {
        let k = choose|k: int| 0 <= k < t.len() && t[k] == s[i];
        if k < i {
            assert(s[k] == s[i]);
        } else {
            assert(s[k + 1] == s[i]);
        }
        assert(false);
    }
    assert forall|e: T| s.contains(e) && e != s[i] implies #[trigger] t.contains(e) by {
        let k = choose|k: int| 0 <= k < s.len() && s[k] == e;
        if k < i {
            assert(t[k] == e);
        } else {
            assert(t[k - 1] == e);
        }
    }
}

/// `s` with its duplicates dropped, keeping first occurrences.
pub open spec fn dedup_spec<T>(s: Seq<T>) -> Seq<T>
    decreases s.len(),
{
    if s.len() == 0 {
        Seq::empty()
    } else {
        let rest = dedup_spec(s.drop_last());
        if s.drop_last().contains(s.last()) {
            rest
        } else {
            rest.push(s.last())
        }
    }
}

/// De-duplication keeps exactly the members and leaves no duplicates.
pub proof fn lemma_dedup_facts<T>(s: Seq<T>)
    ensures
        distinct_seq(dedup_spec(s)),
        forall|e: T| #[trigger] dedup_spec(s).contains(e) <==> s.contains(e),
    decreases s.len(),
{
    if s.len() == 0 {
    } else {
        let front = s.drop_last();
        lemma_dedup_facts(front);
        let rest = dedup_spec(front);
        assert forall|e: T| #[trigger] s.contains(e)
            implies dedup_spec(s).contains(e) by {
            let k = choose|k: int| 0 <= k < s.len() && s[k] == e;
            if k < s.len() - 1 {
                assert(front[k] == e);
                assert(rest.contains(e));
                if !front.contains(s.last()) {
                    let m = choose|m: int| 0 <= m < rest.len() && rest[m] == e;
                    assert(rest.push(s.last())[m] == e);
                }
            } else {
                if front.contains(s.last()) {
                    assert(rest.contains(e));
                } else {
                    assert(rest.push(s.last()).last() == e);
                }
            }
        }
        assert forall|e: T| #[trigger] dedup_spec(s).contains(e)
            implies s.contains(e) by {
            if front.contains(s.last()) {
                assert(rest.contains(e));
                assert(front.contains(e));
                let k = choose|k: int| 0 <= k < front.len() && front[k] == e;
                assert(s[k] == e);
            } else {
                let m = choose|m: int| 0 <= m < rest.push(s.last()).len()
                    && rest.push(s.last())[m] == e;
                if m < rest.len() {
                    assert(rest.contains(e));
                    assert(front.contains(e));
                    let k = choose|k: int| 0 <= k < front.len() && front[k] == e;
                    assert(s[k] == e);
                } else {
                    assert(e == s.last());
                    assert(s[s.len() - 1] == e);
                }
            }
        }
        if !front.contains(s.last()) {
            assert forall|a: int, b: int| 0 <= a < b < dedup_spec(s).len()
                implies dedup_spec(s)[a] != dedup_spec(s)[b] by {
                if b < rest.len() {
                } else {
                    assert(dedup_spec(s)[a] == rest[a]);
                    assert(rest.contains(rest[a]));
                    assert(dedup_spec(s)[b] == s.last());
                }
            }
        }
    }
}

/// What appending does to membership.
pub proof fn lemma_push_contains<T>(s: Seq<T>, x: T)
    ensures
        forall|e: T| #[trigger] s.push(x).contains(e) <==> s.contains(e) || e == x,
{
    assert forall|e: T| #[trigger] s.push(x).contains(e) implies s.contains(e) || e == x by {
        let k = choose|k: int| 0 <= k < s.push(x).len() && s.push(x)[k] == e;
        if k < s.len() {
            assert(s[k] == e);
        }
    }
    assert forall|e: T| s.contains(e) || e == x implies #[trigger] s.push(x).contains(e) by {
        if e == x {
            assert(s.push(x)[s.len() as int] == e);
        } else {
            let k = choose|k: int| 0 <= k < s.len() && s[k] == e;
            assert(s.push(x)[k] == e);
        }
    }
}

/// The position of `x` in `s`; meaningful when `s` holds `x` exactly once.
pub open spec fn pos_of<T>(s: Seq<T>, x: T) -> int {
    choose|i: int| 0 <= i < s.len() && s[i] == x
}

/// On a duplicate-free sequence, `pos_of` is the one index holding `x`.
pub proof fn lemma_pos_of<T>(s: Seq<T>, x: T, k: int)
    requires
        distinct_seq(s),
        0 <= k < s.len(),
        s[k] == x,
    ensures
        pos_of(s, x) == k,
{
    assert(exists|i: int| 0 <= i < s.len() && s[i] == x) by {
        assert(0 <= k < s.len() && s[k] == x);
    }
    let p = pos_of(s, x);
    assert(0 <= p < s.len() && s[p] == x);
    if p != k {
        assert(s[p] != s[k]);
        assert(false);
    }
}

/// Toggling: remove the first occurrence if present, append if absent.
pub open spec fn toggle_spec<T>(s: Seq<T>, d: T) -> Seq<T> {
    if s.contains(d) {
        s.remove_value(d)
    } else {
        s.push(d)
    }
}

/// On a duplicate-free sequence, toggling removes or adds exactly `d` and
/// keeps the sequence duplicate-free.
pub proof fn lemma_toggle_facts<T>(s: Seq<T>, d: T)
    requires
        distinct_seq(s),
    ensures
        distinct_seq(toggle_spec(s, d)),
        s.contains(d) ==> !toggle_spec(s, d).contains(d),
        !s.contains(d) ==> toggle_spec(s, d).contains(d),
        forall|e: T| e != d ==> (#[trigger] toggle_spec(s, d).contains(e) <==> s.contains(e)),
{
    if s.contains(d) {
        s.index_of_first_ensures(d);
        let i = s.index_of_first(d).unwrap();
        lemma_remove_facts(s, i);
    } else {
        let t = s.push(d);
        assert(t[s.len() as int] == d);
        assert(t.contains(d));
        assert forall|a: int, b: int| 0 <= a < b < t.len() implies t[a] != t[b] by {
            if b < s.len() {
            } else {
                assert(t[a] == s[a] && s.contains(s[a]));
            }
        }
        assert forall|e: T| e != d && #[trigger] t.contains(e) implies s.contains(e) by {
            let k = choose|k: int| 0 <= k < t.len() && t[k] == e;
            assert(s[k] == e);
        }
        assert forall|e: T| e != d && s.contains(e) implies #[trigger] t.contains(e) by {
            let k = choose|k: int| 0 <= k < s.len() && s[k] == e;
            assert(t[k] == e);
        }
    }
}

/// Toggling the same element twice restores exactly the original membership.
pub proof fn lemma_toggle_twice<T>(s: Seq<T>, d: T)
    requires
        distinct_seq(s),
    ensures
        forall|e: T| #[trigger] toggle_spec(toggle_spec(s, d), d).contains(e) <==> s.contains(e),
        toggle_spec(toggle_spec(s, d), d).to_set() == s.to_set(),
{
    lemma_toggle_facts(s, d);
    lemma_toggle_facts(toggle_spec(s, d), d);
    let t2 = toggle_spec(toggle_spec(s, d), d);
    assert forall|e: T| #[trigger] t2.contains(e) <==> s.contains(e) by {
        if e == d {
            if s.contains(d) {
                assert(!toggle_spec(s, d).contains(d));
                assert(t2.contains(d));
            } else {
                assert(toggle_spec(s, d).contains(d));
                assert(!t2.contains(d));
            }
        }
    }
    assert(t2.to_set() =~= s.to_set());
}

} // verus!
