//! Mathematical model of the canonical Huffman construction.
//!
//! A bit-length array is a sequence of per-symbol code lengths; length 0
//! marks an unused symbol.  The model defines how many symbols carry each
//! length, the DEFLATE starting code for each length, the canonical code of
//! each used symbol, and the Kraft sum that makes a length array feasible.

use vstd::prelude::*;
use vstd::arithmetic::power2::pow2;

verus! {

/// Number of entries of `s` that are exactly the length `l`.
pub open spec fn count_len(s: Seq<usize>, l: nat) -> nat
    decreases s.len(),
{
    if s.len() == 0 {
        0
    } else {
        count_len(s.drop_last(), l) + if s.last() as nat == l {
            1nat
        } else {
            0nat
        }
    }
}

/// Every length lies in `[0, maxbits]`.
pub open spec fn valid_lengths(s: Seq<usize>, maxbits: nat) -> bool {
    forall|i: int| 0 <= i < s.len() ==> s[i] as nat <= maxbits
}

/// The numerically smallest code of length `l`, per the DEFLATE recurrence
/// `code = (code + bl_count[l - 1]) << 1` with `bl_count[0]` forced to 0.
pub open spec fn next_code(s: Seq<usize>, l: nat) -> nat
    decreases l,
{
    if l <= 1 {
        0
    } else {
        (next_code(s, (l - 1) as nat) + count_len(s, (l - 1) as nat)) * 2
    }
}

/// The canonical code of the symbol at index `i` (meaningful when
/// `s[i] != 0`): the starting code of its length plus the number of earlier
/// symbols of the same length.
pub open spec fn code_of(s: Seq<usize>, i: int) -> nat {
    next_code(s, s[i] as nat) + count_len(s.take(i), s[i] as nat)
}

/// The full canonical code array: unused symbols keep the value 0, which a
/// compliant bit-stream writer never emits.
pub open spec fn canonical_codes(s: Seq<usize>) -> Seq<nat> {
    Seq::new(s.len(), |i: int| if s[i] == 0 { 0nat } else { code_of(s, i) })
}

/// The Kraft sum scaled by `pow2(maxbits)`: each used symbol of length `l`
/// contributes `pow2(maxbits - l)`.
pub open spec fn kraft_sum(s: Seq<usize>, maxbits: nat) -> nat
    decreases s.len(),
{
    if s.len() == 0 {
        0
    } else {
        kraft_sum(s.drop_last(), maxbits) + if s.last() == 0 {
            0nat
        } else {
            pow2((maxbits - s.last() as nat) as nat)
        }
    }
}

/// The Kraft inequality: the scaled sum stays within `pow2(maxbits)`, so a
/// prefix-free code with these lengths exists.
pub open spec fn kraft_ok(s: Seq<usize>, maxbits: nat) -> bool {
    kraft_sum(s, maxbits) <= pow2(maxbits)
}

/// The length array with its unused (length 0) entries removed, the order
/// of the used symbols kept.
pub open spec fn strip_zeros(s: Seq<usize>) -> Seq<usize>
    decreases s.len(),
{
    if s.len() == 0 {
        Seq::empty()
    } else if s.last() == 0 {
        strip_zeros(s.drop_last())
    } else {
        strip_zeros(s.drop_last()).push(s.last())
    }
}

/// Removing unused entries changes no count of a nonzero length.
pub proof fn lemma_strip_zeros_count(s: Seq<usize>, l: nat)
    requires
        l != 0,
    ensures
        count_len(strip_zeros(s), l) == count_len(s, l),
    decreases s.len(),
{
    if s.len() > 0 {
        lemma_strip_zeros_count(s.drop_last(), l);
        if s.last() != 0 {
            let t = strip_zeros(s.drop_last()).push(s.last());
            assert(t.drop_last() =~= strip_zeros(s.drop_last()));
            assert(t.last() == s.last());
        }
    }
}

/// Removing unused entries moves no length's starting code: `next_code`
/// reads only the counts of nonzero lengths.
pub proof fn lemma_strip_zeros_next_code(s: Seq<usize>, l: nat)
    ensures
        next_code(strip_zeros(s), l) == next_code(s, l),
    decreases l,
{
    if l > 1 {
        lemma_strip_zeros_next_code(s, (l - 1) as nat);
        lemma_strip_zeros_count(s, (l - 1) as nat);
    }
}

/// Stripping a prefix gives a prefix of the stripped array.
pub proof fn lemma_strip_zeros_prefix(s: Seq<usize>, i: int)
    requires
        0 <= i <= s.len(),
    ensures
        strip_zeros(s.take(i)).len() <= strip_zeros(s).len(),
        strip_zeros(s.take(i)) == strip_zeros(s).take(strip_zeros(s.take(i)).len() as int),
    decreases s.len() - i,
{
    if i == s.len() {
        assert(s.take(i) =~= s);
        assert(strip_zeros(s).take(strip_zeros(s).len() as int) =~= strip_zeros(s));
    } else {
        lemma_strip_zeros_prefix(s, i + 1);
        assert(s.take(i + 1).drop_last() =~= s.take(i));
        assert(s.take(i + 1).last() == s[i]);
        let a = strip_zeros(s.take(i));
        let b = strip_zeros(s.take(i + 1));
        if s[i] == 0 {
            assert(b == a);
        } else {
            assert(b == a.push(s[i]));
            assert(b.drop_last() =~= strip_zeros(s).take(a.len() as int));
            assert(a =~= b.drop_last());
        }
    }
}

/// At most `s.len()` entries can carry any one length.
pub proof fn lemma_count_le_len(s: Seq<usize>, l: nat)
    ensures
        count_len(s, l) <= s.len(),
    decreases s.len(),
{
    if s.len() > 0 {
        lemma_count_le_len(s.drop_last(), l);
    }
}

/// Extending a prefix by one entry raises the count of that entry's length
/// by one and leaves every other count unchanged.
pub proof fn lemma_count_take_step(s: Seq<usize>, i: int, l: nat)
    requires
        0 <= i < s.len(),
    ensures
        count_len(s.take(i + 1), l) == count_len(s.take(i), l) + if s[i] as nat == l {
            1nat
        } else {
            0nat
        },
{
    assert(s.take(i + 1).drop_last() =~= s.take(i));
    assert(s.take(i + 1).last() == s[i]);
}

/// Counts over a prefix never exceed counts over the whole sequence.
pub proof fn lemma_count_take_mono(s: Seq<usize>, i: int, l: nat)
    requires
        0 <= i <= s.len(),
    ensures
        count_len(s.take(i), l) <= count_len(s, l),
    decreases s.len() - i,
{
    if i == s.len() {
        assert(s.take(i) =~= s);
    } else {
        lemma_count_take_step(s, i, l);
        lemma_count_take_mono(s, i + 1, l);
    }
}

/// A longer prefix counts at least as many entries of any length.
pub proof fn lemma_count_prefix_mono(s: Seq<usize>, a: int, b: int, l: nat)
    requires
        0 <= a <= b <= s.len(),
    ensures
        count_len(s.take(a), l) <= count_len(s.take(b), l),
    decreases b - a,
{
    if a < b {
        lemma_count_take_step(s, a, l);
        lemma_count_prefix_mono(s, a + 1, b, l);
    }
}

/// A stretch of indices holding no entry of length `l` leaves the count of
/// `l` unchanged.
pub proof fn lemma_count_gap(s: Seq<usize>, a: int, b: int, l: nat)
    requires
        0 <= a <= b <= s.len(),
        forall|k: int| a <= k < b ==> s[k] as nat != l,
    ensures
        count_len(s.take(b), l) == count_len(s.take(a), l),
    decreases b - a,
{
    if a < b {
        lemma_count_take_step(s, a, l);
        lemma_count_gap(s, a + 1, b, l);
    }
}

/// Extending a prefix by one entry adds exactly that entry's Kraft term.
pub proof fn lemma_kraft_take_step(s: Seq<usize>, i: int, maxbits: nat)
    requires
        0 <= i < s.len(),
    ensures
        kraft_sum(s.take(i + 1), maxbits) == kraft_sum(s.take(i), maxbits) + if s[i] == 0 {
            0nat
        } else {
            pow2((maxbits - s[i] as nat) as nat)
        },
{
    assert(s.take(i + 1).drop_last() =~= s.take(i));
    assert(s.take(i + 1).last() == s[i]);
}

/// The Kraft sum of a prefix never exceeds the Kraft sum of the whole array.
pub proof fn lemma_kraft_take_mono(s: Seq<usize>, i: int, maxbits: nat)
    requires
        0 <= i <= s.len(),
    ensures
        kraft_sum(s.take(i), maxbits) <= kraft_sum(s, maxbits),
    decreases s.len() - i,
{
    if i == s.len() {
        assert(s.take(i) =~= s);
    } else {
        lemma_kraft_take_step(s, i, maxbits);
        lemma_kraft_take_mono(s, i + 1, maxbits);
    }
}

} // verus!
