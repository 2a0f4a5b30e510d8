//! Stable sorting of positions `0..n` by a key, as `slice::sort_by_key` does:
//! the result lists the positions by increasing key, and positions whose keys
//! are equal keep their original order.
use vstd::prelude::*;

use crate::text::{byte_strings, bytes_lt, bytes_less, lemma_bytes_lt_irreflexive, lemma_bytes_lt_total,
    lemma_bytes_lt_transitive};

verus! {

/// Where insertion sort puts `x` into `s`: before the first element that `x`
/// must precede, after all others.
pub open spec fn insertion_point(s: Seq<int>, x: int, before: spec_fn(int, int) -> bool) -> int
    decreases s.len(),
{
    if s.len() == 0 {
        0
    } else if before(x, s[0]) {
        0
    } else {
        1 + insertion_point(s.drop_first(), x, before)
    }
}

/// The positions `0..n` stably sorted by `before`: position `n - 1` is
/// inserted into the sorted `0..n - 1` after every position that it need not
/// precede.
pub open spec fn stable_order(n: nat, before: spec_fn(int, int) -> bool) -> Seq<int>
    decreases n,
{
    if n == 0 {
        seq![]
    } else {
        let s = stable_order((n - 1) as nat, before);
        s.insert(insertion_point(s, n - 1, before), n - 1)
    }
}

/// `before` is a strict weak order: irreflexive, transitive, and when `a`
/// precedes `b` every `c` follows `a` or precedes `b`.
pub open spec fn strict_weak_order(before: spec_fn(int, int) -> bool) -> bool {
    &&& forall|a: int| !#[trigger] before(a, a)
    &&& forall|a: int, b: int, c: int| #[trigger] before(a, b) && #[trigger] before(b, c) ==> before(a, c)
    &&& forall|a: int, b: int, c: int| #[trigger] before(a, b) ==> before(a, c) || #[trigger] before(c, b)
}

/// The order of positions by the byte strings at them.
pub open spec fn by_bytes(keys: Seq<Seq<u8>>) -> spec_fn(int, int) -> bool {
    |a: int, b: int| bytes_lt(keys[a], keys[b])
}

/// The order of positions by the numbers at them.
pub open spec fn by_number(keys: Seq<usize>) -> spec_fn(int, int) -> bool {
    |a: int, b: int| keys[a] < keys[b]
}

/// A sequence holds each position of `0..n` exactly once.
pub open spec fn is_permutation(s: Seq<int>, n: nat) -> bool {
    &&& s.len() == n
    &&& forall|i: int| 0 <= i < s.len() ==> 0 <= #[trigger] s[i] < n
    &&& forall|i: int, j: int| 0 <= i < j < s.len() ==> s[i] != s[j]
}

/// No position is listed after one that it must precede.
pub open spec fn is_sorted_by(s: Seq<int>, before: spec_fn(int, int) -> bool) -> bool {
    forall|i: int, j: int| 0 <= i < j < s.len() ==> !before(#[trigger] s[j], #[trigger] s[i])
}

/// Positions that neither must precede the other keep their original order.
pub open spec fn is_stable_by(s: Seq<int>, before: spec_fn(int, int) -> bool) -> bool {
    forall|i: int, j: int|
        0 <= i < j < s.len() && !before(#[trigger] s[i], #[trigger] s[j]) && !before(s[j], s[i])
            ==> s[i] < s[j]
}

proof fn lemma_insertion_point(s: Seq<int>, x: int, before: spec_fn(int, int) -> bool)
    ensures
        0 <= insertion_point(s, x, before) <= s.len(),
        forall|q: int| 0 <= q < insertion_point(s, x, before) ==> !before(x, #[trigger] s[q]),
        insertion_point(s, x, before) < s.len() ==> before(x, s[insertion_point(s, x, before)]),
    decreases s.len(),
{
    if s.len() > 0 && !before(x, s[0]) {
        lemma_insertion_point(s.drop_first(), x, before);
        assert forall|q: int| 0 <= q < insertion_point(s, x, before) implies !before(x, #[trigger] s[q]) by {
            if q > 0 {
                assert(s[q] == s.drop_first()[q - 1]);
            }
        }
    }
}

/// The first index `p` of `s` with `before(x, s[p])` is the insertion point.
proof fn lemma_insertion_point_is_first(s: Seq<int>, x: int, before: spec_fn(int, int) -> bool, p: int)
    requires
        0 <= p <= s.len(),
        forall|q: int| 0 <= q < p ==> !before(x, #[trigger] s[q]),
        p < s.len() ==> before(x, s[p]),
    ensures
        insertion_point(s, x, before) == p,
    decreases p,
{
    if p > 0 {
        assert(!before(x, s[0]));
        let t = s.drop_first();
        assert forall|q: int| 0 <= q < p - 1 implies !before(x, #[trigger] t[q]) by {
            assert(t[q] == s[q + 1]);
        }
        if p - 1 < t.len() {
            assert(t[p - 1] == s[p]);
        }
        lemma_insertion_point_is_first(t, x, before, p - 1);
    }
}

/// Laws of the stable order: it lists each position once, sorted by
/// `before`, and keeps equivalent positions in their original order.
pub proof fn lemma_stable_order(n: nat, before: spec_fn(int, int) -> bool)
    requires
        strict_weak_order(before),
    ensures
        is_permutation(stable_order(n, before), n),
        is_sorted_by(stable_order(n, before), before),
        is_stable_by(stable_order(n, before), before),
    decreases n,
{
    if n > 0 {
        let m = (n - 1) as nat;
        let s = stable_order(m, before);
        lemma_stable_order(m, before);
        let x = n - 1;
        let p = insertion_point(s, x, before);
        lemma_insertion_point(s, x, before);
        let r = s.insert(p, x);
        assert(r == stable_order(n, before));
        assert forall|i: int| 0 <= i < r.len() implies 0 <= #[trigger] r[i] < n by {
            if i > p {
                assert(r[i] == s[i - 1]);
            }
        }
        assert forall|i: int, j: int| 0 <= i < j < r.len() implies r[i] != r[j] by {
            if i < p && j < p {
            } else if i > p && j > p {
                assert(r[i] == s[i - 1] && r[j] == s[j - 1]);
            } else if i < p && j > p {
                assert(r[j] == s[j - 1]);
            } else if i == p {
                if j > p {
                    assert(r[j] == s[j - 1]);
                }
            } else {
                assert(j == p);
            }
        }
        assert forall|i: int, j: int| 0 <= i < j < r.len() implies !before(#[trigger] r[j], #[trigger] r[i]) by {
            if i < p && j < p {
            } else if i > p && j > p {
                assert(r[i] == s[i - 1] && r[j] == s[j - 1]);
            } else if i < p && j > p {
                assert(r[j] == s[j - 1]);
                // s[i] does not follow x, x precedes s[p], s[p] does not follow... reason by cases
                assert(!before(x, s[i]));
                assert(before(x, s[p]));
                assert(!before(s[j - 1], s[p]) || j - 1 == p);
                if before(s[j - 1], s[i]) {
                    // then before(s[j-1], x) or before(x, s[i]); the latter is false
                    assert(before(s[j - 1], x) || before(x, s[i]));
                    assert(before(s[j - 1], x));
                    assert(before(x, s[j - 1])) by {
                        if j - 1 != p {
                            assert(before(x, s[j - 1]) || before(s[j - 1], s[p]));
                        }
                    }
                    assert(before(x, x));
                }
            } else if i == p {
                if j > p {
                    assert(r[j] == s[j - 1]);
                    assert(before(x, s[p]));
                    assert(before(x, s[j - 1])) by {
                        if j - 1 != p {
                            assert(before(x, s[j - 1]) || before(s[j - 1], s[p]));
                        }
                    }
                    if before(s[j - 1], x) {
                        assert(before(x, x));
                    }
                }
            } else {
                assert(j == p);
                assert(!before(x, s[i]));
            }
        }
        assert forall|i: int, j: int|
            0 <= i < j < r.len() && !before(#[trigger] r[i], #[trigger] r[j]) && !before(r[j], r[i])
            implies r[i] < r[j] by {
            if i < p && j < p {
            } else if i > p && j > p {
                assert(r[i] == s[i - 1] && r[j] == s[j - 1]);
            } else if i < p && j > p {
                assert(r[j] == s[j - 1]);
                assert(!before(s[i], s[j - 1]) && !before(s[j - 1], s[i]));
                assert(s[i] < s[j - 1]);
            } else if i == p {
                if j > p {
                    assert(r[j] == s[j - 1]);
                    assert(before(x, s[j - 1])) by {
                        if j - 1 != p {
                            assert(before(x, s[j - 1]) || before(s[j - 1], s[p]));
                        }
                    }
                }
            } else {
                assert(j == p);
                assert(r[i] == s[i]);
                assert(s[i] < x);
            }
        }
    }
}

/// Byte strings ordered as `str` give a strict weak order of positions.
pub proof fn lemma_by_bytes_strict_weak(keys: Seq<Seq<u8>>)
    ensures
        strict_weak_order(by_bytes(keys)),
{
    let f = by_bytes(keys);
    assert forall|a: int| !#[trigger] f(a, a) by {
        lemma_bytes_lt_irreflexive(keys[a]);
    }
    assert forall|a: int, b: int, c: int| #[trigger] f(a, b) && #[trigger] f(b, c) implies f(a, c) by {
        lemma_bytes_lt_transitive(keys[a], keys[b], keys[c]);
    }
    assert forall|a: int, b: int, c: int| #[trigger] f(a, b) implies f(a, c) || #[trigger] f(c, b) by {
        lemma_bytes_lt_total(keys[a], keys[c]);
        if bytes_lt(keys[c], keys[a]) {
            lemma_bytes_lt_transitive(keys[c], keys[a], keys[b]);
        }
    }
}

/// Numbers give a strict weak order of positions.
pub proof fn lemma_by_number_strict_weak(keys: Seq<usize>)
    ensures
        strict_weak_order(by_number(keys)),
{
}

/// Positions `0..keys.len()` stably sorted by the byte strings at them.
pub fn stable_order_by_bytes(keys: &Vec<Vec<u8>>) -> (r: Vec<usize>)
    ensures
        r@.len() == keys@.len(),
        forall|i: int| 0 <= i < r@.len() ==> #[trigger] r@[i] as int == stable_order(
            keys@.len() as nat,
            by_bytes(byte_strings(keys@)),
        )[i],
{
    let ghost before = by_bytes(byte_strings(keys@));
    let mut r: Vec<usize> = Vec::new();
    let mut i: usize = 0;
    while i < keys.len()
        invariant
            i <= keys@.len(),
            before == by_bytes(byte_strings(keys@)),
            r@.len() == i,
            forall|k: int| 0 <= k < r@.len() ==> #[trigger] r@[k] as int == stable_order(i as nat, before)[k],
        decreases keys@.len() - i,
    {
        let ghost s = stable_order(i as nat, before);
        proof {
            lemma_by_bytes_strict_weak(byte_strings(keys@));
            lemma_stable_order(i as nat, before);
        }
        let mut p: usize = 0;
        while p < r.len() && !bytes_less(&keys[i], &keys[r[p]])
            invariant
                i < keys@.len(),
                before == by_bytes(byte_strings(keys@)),
                r@.len() == i,
                s == stable_order(i as nat, before),
                is_permutation(s, i as nat),
                forall|k: int| 0 <= k < r@.len() ==> #[trigger] r@[k] as int == s[k],
                p <= r@.len(),
                forall|q: int| 0 <= q < p ==> !before(i as int, #[trigger] s[q]),
            decreases r@.len() - p,
        {
            assert(byte_strings(keys@)[r@[p as int] as int] == keys@[r@[p as int] as int]@);
            assert(byte_strings(keys@)[i as int] == keys@[i as int]@);
            assert(before(i as int, s[p as int]) == bytes_lt(keys@[i as int]@, keys@[r@[p as int] as int]@));
            p = p + 1;
        }
        proof {
            if p < r@.len() {
                assert(byte_strings(keys@)[r@[p as int] as int] == keys@[r@[p as int] as int]@);
                assert(byte_strings(keys@)[i as int] == keys@[i as int]@);
                assert(before(i as int, s[p as int]) == bytes_lt(keys@[i as int]@, keys@[r@[p as int] as int]@));
            }
            lemma_insertion_point_is_first(s, i as int, before, p as int);
        }
        let ghost old_r = r@;
        r.insert(p, i);
        i = i + 1;
        assert forall|k: int| 0 <= k < r@.len() implies #[trigger] r@[k] as int == stable_order(i as nat, before)[k] by {
            assert(stable_order(i as nat, before) == s.insert(p as int, (i - 1) as int));
            if k < p {
                assert(r@[k] == old_r[k]);
            } else if k > p {
                assert(r@[k] == old_r[k - 1]);
            }
        }
    }
    r
}

/// Positions `0..keys.len()` stably sorted by the numbers at them.
pub fn stable_order_by_number(keys: &Vec<usize>) -> (r: Vec<usize>)
    ensures
        r@.len() == keys@.len(),
        forall|i: int| 0 <= i < r@.len() ==> #[trigger] r@[i] as int == stable_order(
            keys@.len() as nat,
            by_number(keys@),
        )[i],
{
    let ghost before = by_number(keys@);
    let mut r: Vec<usize> = Vec::new();
    let mut i: usize = 0;
    while i < keys.len()
        invariant
            i <= keys@.len(),
            before == by_number(keys@),
            r@.len() == i,
            forall|k: int| 0 <= k < r@.len() ==> #[trigger] r@[k] as int == stable_order(i as nat, before)[k],
        decreases keys@.len() - i,
    {
        let ghost s = stable_order(i as nat, before);
        proof {
            lemma_by_number_strict_weak(keys@);
            lemma_stable_order(i as nat, before);
        }
        let mut p: usize = 0;
        while p < r.len() && !(keys[i] < keys[r[p]])
            invariant
                i < keys@.len(),
                before == by_number(keys@),
                r@.len() == i,
                s == stable_order(i as nat, before),
                is_permutation(s, i as nat),
                forall|k: int| 0 <= k < r@.len() ==> #[trigger] r@[k] as int == s[k],
                p <= r@.len(),
                forall|q: int| 0 <= q < p ==> !before(i as int, #[trigger] s[q]),
            decreases r@.len() - p,
        {
            assert(before(i as int, s[p as int]) == (keys@[i as int] < keys@[r@[p as int] as int]));
            p = p + 1;
        }
        proof {
            if p < r@.len() {
                assert(before(i as int, s[p as int]) == (keys@[i as int] < keys@[r@[p as int] as int]));
            }
            lemma_insertion_point_is_first(s, i as int, before, p as int);
        }
        let ghost old_r = r@;
        r.insert(p, i);
        i = i + 1;
        assert forall|k: int| 0 <= k < r@.len() implies #[trigger] r@[k] as int == stable_order(i as nat, before)[k] by {
            assert(stable_order(i as nat, before) == s.insert(p as int, (i - 1) as int));
            if k < p {
                assert(r@[k] == old_r[k]);
            } else if k > p {
                assert(r@[k] == old_r[k - 1]);
            }
        }
    }
    r
}

} // verus!
