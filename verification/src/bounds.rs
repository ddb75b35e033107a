//! Consequences of the Kraft inequality.
//!
//! The central fact is that for every length `L` the last code handed out at
//! that length stays below `pow2(L)`:  `next_code(L) + count_len(L) <=
//! pow2(L)`.  It bounds the arithmetic of the assigner and drives the
//! prefix-freedom proof.  The bridge is a weighted count `wsum`, the Kraft
//! sum rewritten per length instead of per symbol.

use vstd::prelude::*;
use vstd::arithmetic::power2::pow2;
use vstd::arithmetic::power2::lemma_pow2_adds;
use vstd::arithmetic::power2::lemma_pow2_pos;
use crate::model::count_len;
use crate::model::next_code;
use crate::model::kraft_sum;
use crate::model::kraft_ok;
use crate::model::valid_lengths;

verus! {

/// The Kraft sum grouped by length: `sum over 1 <= k <= l` of
/// `count_len(s, k) * pow2(cap - k)`, meaningful for `l <= cap`.
pub open spec fn wsum(s: Seq<usize>, cap: nat, l: nat) -> nat
    decreases l,
{
    if l == 0 {
        0
    } else {
        wsum(s, cap, (l - 1) as nat) + count_len(s, l) * pow2((cap - l) as nat)
    }
}

/// Appending one entry adds exactly its weighted term.
proof fn lemma_wsum_push(s: Seq<usize>, x: usize, cap: nat, l: nat)
    requires
        l <= cap,
    ensures
        wsum(s.push(x), cap, l) == wsum(s, cap, l) + if 1 <= x as nat <= l {
            pow2((cap - x as nat) as nat)
        } else {
            0nat
        },
    decreases l,
{
    if l > 0 {
        lemma_wsum_push(s, x, cap, (l - 1) as nat);
        assert(s.push(x).drop_last() =~= s);
        assert(count_len(s.push(x), l) == count_len(s, l) + if x as nat == l {
            1nat
        } else {
            0nat
        });
        if x as nat == l {
            assert((count_len(s, l) + 1) * pow2((cap - l) as nat) == count_len(s, l) * pow2(
                (cap - l) as nat,
            ) + pow2((cap - l) as nat)) by (nonlinear_arith);
        }
    }
}

/// The per-symbol Kraft sum equals the per-length weighted count.
pub proof fn lemma_kraft_eq_wsum(s: Seq<usize>, maxbits: nat)
    requires
        valid_lengths(s, maxbits),
    ensures
        kraft_sum(s, maxbits) == wsum(s, maxbits, maxbits),
    decreases s.len(),
{
    if s.len() == 0 {
        lemma_wsum_zero(s, maxbits, maxbits);
    } else {
        let d = s.drop_last();
        assert(valid_lengths(d, maxbits)) by {
            assert(forall|i: int| 0 <= i < d.len() ==> d[i] == s[i]);
        }
        lemma_kraft_eq_wsum(d, maxbits);
        lemma_wsum_push(d, s.last(), maxbits, maxbits);
        assert(d.push(s.last()) =~= s);
    }
}

/// A weighted count over the empty sequence is zero.
proof fn lemma_wsum_zero(s: Seq<usize>, cap: nat, l: nat)
    requires
        s.len() == 0,
    ensures
        wsum(s, cap, l) == 0,
    decreases l,
{
    if l > 0 {
        lemma_wsum_zero(s, cap, (l - 1) as nat);
        assert(count_len(s, l) == 0);
    }
}

/// Raising the cap scales every term, hence the sum, by the same power of 2.
proof fn lemma_wsum_scale(s: Seq<usize>, cap1: nat, cap2: nat, l: nat)
    requires
        l <= cap1 <= cap2,
    ensures
        wsum(s, cap2, l) == pow2((cap2 - cap1) as nat) * wsum(s, cap1, l),
    decreases l,
{
    let a = pow2((cap2 - cap1) as nat);
    if l == 0 {
        assert(a * 0nat == 0nat) by (nonlinear_arith);
    } else {
        lemma_wsum_scale(s, cap1, cap2, (l - 1) as nat);
        lemma_pow2_adds((cap2 - cap1) as nat, (cap1 - l) as nat);
        let b = pow2((cap1 - l) as nat);
        let c = count_len(s, l);
        let w = wsum(s, cap1, (l - 1) as nat);
        assert(pow2((cap2 - l) as nat) == a * b);
        assert(a * w + c * (a * b) == a * (w + c * b)) by (nonlinear_arith);
        assert(wsum(s, cap2, l) == a * w + c * (a * b));
        assert(wsum(s, cap1, l) == w + c * b);
    }
}

/// The weighted count grows with the number of lengths included.
proof fn lemma_wsum_mono(s: Seq<usize>, cap: nat, l1: nat, l2: nat)
    requires
        l1 <= l2,
    ensures
        wsum(s, cap, l1) <= wsum(s, cap, l2),
    decreases l2,
{
    if l1 < l2 {
        lemma_wsum_mono(s, cap, l1, (l2 - 1) as nat);
    }
}

/// The DEFLATE starting code of length `l` is the weighted count of all
/// shorter lengths.
proof fn lemma_next_code_eq_wsum(s: Seq<usize>, l: nat)
    requires
        l >= 1,
    ensures
        next_code(s, l) == wsum(s, l, (l - 1) as nat),
    decreases l,
{
    if l == 1 {
    } else {
        lemma_next_code_eq_wsum(s, (l - 1) as nat);
        lemma_wsum_scale(s, (l - 1) as nat, l, (l - 1) as nat);
        assert(pow2(1) == 2) by {
            vstd::arithmetic::power2::lemma2_to64();
        }
        assert(pow2((l - (l - 1)) as nat) == 2);
        assert(wsum(s, (l - 1) as nat, (l - 1) as nat) == wsum(s, (l - 1) as nat, (l - 2) as nat)
            + count_len(s, (l - 1) as nat) * pow2(0));
        assert(pow2(0) == 1) by {
            vstd::arithmetic::power2::lemma2_to64();
        }
        assert(wsum(s, l, (l - 1) as nat) == 2 * wsum(s, (l - 1) as nat, (l - 1) as nat));
        assert(2 * (next_code(s, (l - 1) as nat) + count_len(s, (l - 1) as nat)) == (next_code(
            s,
            (l - 1) as nat,
        ) + count_len(s, (l - 1) as nat)) * 2);
    }
}

/// Under the Kraft inequality, the codes of length `l` fit below `pow2(l)`:
/// the starting code plus the number of codes of that length is at most
/// `pow2(l)`.
pub proof fn lemma_kraft_bound(s: Seq<usize>, maxbits: nat, l: nat)
    requires
        valid_lengths(s, maxbits),
        kraft_ok(s, maxbits),
        1 <= l <= maxbits,
    ensures
        next_code(s, l) + count_len(s, l) <= pow2(l),
{
    lemma_next_code_eq_wsum(s, l);
    assert(pow2(0) == 1) by {
        vstd::arithmetic::power2::lemma2_to64();
    }
    assert((l - l) as nat == 0nat);
    let c = count_len(s, l);
    assert(c * 1nat == c) by (nonlinear_arith);
    assert(wsum(s, l, l) == next_code(s, l) + count_len(s, l));
    lemma_wsum_scale(s, l, maxbits, l);
    lemma_wsum_mono(s, maxbits, l, maxbits);
    lemma_kraft_eq_wsum(s, maxbits);
    lemma_pow2_adds((maxbits - l) as nat, l);
    lemma_pow2_pos((maxbits - l) as nat);
    let a = pow2((maxbits - l) as nat);
    let w = wsum(s, l, l);
    assert(a * w <= a * pow2(l) && a > 0 ==> w <= pow2(l)) by (nonlinear_arith);
    assert(a * w == wsum(s, maxbits, l));
    assert(a * pow2(l) == pow2(maxbits));
}

/// The starting code of a longer length clears every code of a shorter one:
/// `next_code(l2)` is at least `pow2(l2 - l1)` times the first code value
/// never used at length `l1`.
pub proof fn lemma_next_code_growth(s: Seq<usize>, l1: nat, l2: nat)
    requires
        1 <= l1 < l2,
    ensures
        next_code(s, l2) >= pow2((l2 - l1) as nat) * (next_code(s, l1) + count_len(s, l1)),
    decreases l2,
{
    let base = next_code(s, l1) + count_len(s, l1);
    if l2 == l1 + 1 {
        assert(pow2(1) == 2) by {
            vstd::arithmetic::power2::lemma2_to64();
        }
        assert((l2 - l1) as nat == 1nat);
        assert(next_code(s, l2) == base * 2);
        assert(base * 2 == 2 * base) by (nonlinear_arith);
        assert(next_code(s, l2) >= pow2((l2 - l1) as nat) * base);
    } else {
        lemma_next_code_growth(s, l1, (l2 - 1) as nat);
        lemma_pow2_adds(1, (l2 - 1 - l1) as nat);
        assert(pow2(1) == 2) by {
            vstd::arithmetic::power2::lemma2_to64();
        }
        let p = pow2((l2 - 1 - l1) as nat);
        let q = next_code(s, (l2 - 1) as nat);
        let c = count_len(s, (l2 - 1) as nat);
        assert(next_code(s, l2) == (q + c) * 2);
        assert(q >= p * base);
        assert(q >= p * base ==> (q + c) * 2 >= (2 * p) * base) by (nonlinear_arith);
        assert((l2 - l1) as nat == 1nat + (l2 - 1 - l1) as nat);
        assert(pow2((l2 - l1) as nat) == 2 * p);
        assert(next_code(s, l2) >= pow2((l2 - l1) as nat) * base);
    }
}

} // verus!
