//! Numeric cells as IEEE 754 binary64 bit patterns: the zero test, the
//! numeric order and a stable sort by it.
//!
//! Every pattern that is not a NaN is ordered as the number it encodes, with
//! the two zeros equal. NaN patterns stand beyond the infinities on the side
//! of their sign.

use vstd::prelude::*;

verus! {

/// The pattern of positive zero.
pub const ZERO: u64 = 0;

/// The pattern of one.
pub const ONE: u64 = 0x3FF0_0000_0000_0000;

/// The pattern of two.
pub const TWO: u64 = 0x4000_0000_0000_0000;

/// The sign bit, which is also the pattern of negative zero.
pub const SIGN: u64 = 0x8000_0000_0000_0000;

/// The rank of a pattern in numeric order: its magnitude, negated under the
/// sign bit.
pub open spec fn order_key(bits: u64) -> int {
    if bits >= SIGN {
        -(bits - SIGN)
    } else {
        bits as int
    }
}

/// Whether a pattern encodes zero, of either sign.
pub open spec fn is_zero(bits: u64) -> bool {
    bits == ZERO || bits == SIGN
}

/// `sorted` with `x` put after every element that does not rank above it.
pub open spec fn insert_ordered(sorted: Seq<u64>, x: u64) -> Seq<u64>
    decreases sorted.len(),
{
    if sorted.len() == 0 {
        seq![x]
    } else if order_key(sorted.last()) <= order_key(x) {
        sorted.push(x)
    } else {
        insert_ordered(sorted.drop_last(), x).push(sorted.last())
    }
}

/// The first `n` values in numeric order, equal ranks in their given order.
pub open spec fn ordered(values: Seq<u64>, n: int) -> Seq<u64>
    decreases n,
{
    if n <= 0 {
        Seq::empty()
    } else {
        insert_ordered(ordered(values, n - 1), values[n - 1])
    }
}

/// Ranks never descend along the sequence.
pub open spec fn ascends(values: Seq<u64>) -> bool {
    forall|i: int, j: int| 0 <= i <= j < values.len() ==> order_key(#[trigger] values[i]) <= order_key(#[trigger] values[j])
}

/// The place where `insert_ordered` puts a value: behind the last element that
/// does not rank above it.
pub proof fn lemma_insert_position(sorted: Seq<u64>, x: u64, p: int)
    requires
        0 <= p <= sorted.len(),
        forall|j: int| p <= j < sorted.len() ==> order_key(#[trigger] sorted[j]) > order_key(x),
        p > 0 ==> order_key(sorted[p - 1]) <= order_key(x),
    ensures
        insert_ordered(sorted, x) == sorted.insert(p, x),
    decreases sorted.len(),
{
    if sorted.len() == 0 {
        assert(seq![x] =~= sorted.insert(p, x));
    } else if p == sorted.len() {
        assert(sorted.push(x) =~= sorted.insert(p, x));
    } else {
        lemma_insert_position(sorted.drop_last(), x, p);
        assert(sorted.drop_last().insert(p, x).push(sorted.last()) =~= sorted.insert(p, x));
    }
}

/// Inserting into an ascending sequence leaves it ascending, one longer, and
/// holding what it held and the new value.
pub proof fn lemma_insert_ordered(sorted: Seq<u64>, x: u64)
    requires
        ascends(sorted),
    ensures
        ascends(insert_ordered(sorted, x)),
        insert_ordered(sorted, x).len() == sorted.len() + 1,
        insert_ordered(sorted, x).to_multiset() == sorted.to_multiset().insert(x),
    decreases sorted.len(),
{
    broadcast use vstd::seq_lib::group_to_multiset_ensures;

    if sorted.len() == 0 {
        assert(seq![x] =~= Seq::<u64>::empty().push(x));
        assert(sorted =~= Seq::<u64>::empty());
    } else if order_key(sorted.last()) <= order_key(x) {
        let out = sorted.push(x);
        assert forall|i: int, j: int| 0 <= i <= j < out.len() implies order_key(#[trigger] out[i]) <= order_key(
            #[trigger] out[j],
        ) by {
            if j == sorted.len() && i < sorted.len() {
                assert(order_key(sorted[i]) <= order_key(sorted[sorted.len() - 1]));
            }
        }
    } else {
        let front = sorted.drop_last();
        assert(ascends(front));
        lemma_insert_ordered(front, x);
        let inner = insert_ordered(front, x);
        let out = inner.push(sorted.last());
        assert(sorted =~= front.push(sorted.last()));
        assert forall|i: int| 0 <= i < inner.len() implies order_key(#[trigger] inner[i]) <= order_key(
            sorted.last(),
        ) by {
            assert(inner.to_multiset().count(inner[i]) > 0);
            if inner[i] != x {
                assert(front.to_multiset().count(inner[i]) > 0);
                let k = choose|k: int| 0 <= k < front.len() && front[k] == inner[i];
                assert(order_key(sorted[k]) <= order_key(sorted[sorted.len() - 1]));
            }
        }
        assert forall|i: int, j: int| 0 <= i <= j < out.len() implies order_key(#[trigger] out[i]) <= order_key(
            #[trigger] out[j],
        ) by {
            if j < inner.len() {
                assert(order_key(inner[i]) <= order_key(inner[j]));
            } else if i < inner.len() {
                assert(order_key(inner[i]) <= order_key(sorted.last()));
            }
        }
        assert(out.to_multiset() =~= sorted.to_multiset().insert(x));
    }
}

/// The sorted values ascend, and are the given values in another order.
pub proof fn lemma_ordered(values: Seq<u64>, n: int)
    requires
        0 <= n <= values.len(),
    ensures
        ascends(ordered(values, n)),
        ordered(values, n).len() == n,
        ordered(values, n).to_multiset() == values.take(n).to_multiset(),
    decreases n,
{
    broadcast use vstd::seq_lib::group_to_multiset_ensures;

    if n > 0 {
        lemma_ordered(values, n - 1);
        lemma_insert_ordered(ordered(values, n - 1), values[n - 1]);
        assert(values.take(n) =~= values.take(n - 1).push(values[n - 1]));
    } else {
        assert(values.take(n) =~= Seq::<u64>::empty());
    }
}

/// Whether a pattern encodes zero, of either sign.
pub fn zero(bits: u64) -> (r: bool)
    ensures
        r == is_zero(bits),
{
    bits == ZERO || bits == SIGN
}

/// Whether `a` ranks above `b`.
pub fn ranks_above(a: u64, b: u64) -> (r: bool)
    ensures
        r == (order_key(a) > order_key(b)),
{
    if a >= SIGN {
        b >= SIGN && b - SIGN > a - SIGN
    } else if b >= SIGN {
        a > 0 || b > SIGN
    } else {
        a > b
    }
}

/// The values in numeric order, equal ranks in their given order.
pub fn sort_values(values: &Vec<u64>) -> (out: Vec<u64>)
    ensures
        out@ == ordered(values@, values@.len() as int),
{
    let mut out: Vec<u64> = Vec::new();
    let mut n: usize = 0;
    while n < values.len()
        invariant
            n <= values.len(),
            out@ == ordered(values@, n as int),
        decreases values.len() - n,
    {
        let x: u64 = values[n];
        let mut p: usize = out.len();
        while p > 0 && ranks_above(out[p - 1], x)
            invariant
                p <= out.len(),
                forall|j: int| p <= j < out@.len() ==> order_key(#[trigger] out@[j]) > order_key(x),
            decreases p,
        {
            p = p - 1;
        }
        proof {
            lemma_insert_position(out@, x, p as int);
        }
        out.insert(p, x);
        n = n + 1;
    }
    out
}

} // verus!
