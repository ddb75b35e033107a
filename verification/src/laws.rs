//! The correctness laws of the canonical construction.
//!
//! Proved here, over the same model that `lengths_to_symbols`' contract
//! speaks of: determinism, consecutiveness of equal-length codes, that each
//! code fits in its own bit-length, and prefix-freedom of the whole code
//! set under the Kraft inequality.

use vstd::prelude::*;
use vstd::arithmetic::power2::pow2;
use vstd::arithmetic::power2::lemma2_to64;
use vstd::arithmetic::power2::lemma_pow2_pos;
use vstd::arithmetic::div_mod::lemma_div_basics_2;
use vstd::arithmetic::div_mod::lemma_div_is_ordered;
use vstd::arithmetic::div_mod::lemma_div_multiples_vanish;
use crate::model::count_len;
use crate::model::next_code;
use crate::model::code_of;
use crate::model::canonical_codes;
use crate::model::valid_lengths;
use crate::model::kraft_ok;
use crate::model::lemma_count_take_step;
use crate::model::lemma_count_take_mono;
use crate::model::lemma_count_prefix_mono;
use crate::model::lemma_count_gap;
use crate::model::strip_zeros;
use crate::model::lemma_strip_zeros_count;
use crate::model::lemma_strip_zeros_next_code;
use crate::model::lemma_strip_zeros_prefix;
use crate::bounds::lemma_kraft_bound;
use crate::bounds::lemma_next_code_growth;

verus! {

/// Determinism: the canonical code array is a function of the bit-length
/// array alone, so identical inputs always receive bit-identical outputs.
pub proof fn lemma_assignment_deterministic(a: Seq<usize>, b: Seq<usize>)
    requires
        a == b,
    ensures
        canonical_codes(a) == canonical_codes(b),
{
}

/// Codes of equal bit-length are consecutive integers in ascending symbol
/// order: when no symbol strictly between `i` and `j` carries their common
/// nonzero length, the code at `j` is one more than the code at `i`.
pub proof fn lemma_equal_length_consecutive(s: Seq<usize>, i: int, j: int)
    requires
        0 <= i < j < s.len(),
        s[i] == s[j],
        s[i] != 0,
        forall|k: int| i < k < j ==> s[k] != s[i],
    ensures
        canonical_codes(s)[j] == canonical_codes(s)[i] + 1,
{
    let l = s[i] as nat;
    lemma_count_take_step(s, i, l);
    assert(forall|k: int| i + 1 <= k < j ==> s[k] as nat != l);
    lemma_count_gap(s, i + 1, j, l);
}

/// Unused symbols are immaterial to code assignment: removing every
/// length-0 entry leaves each used symbol's code unchanged.  The symbol at
/// `i` stands at position `strip_zeros(s.take(i)).len()` of the stripped
/// array, with the same length and the same canonical code — so the codes
/// of the used symbols are exactly the codes of the stripped array, in
/// order, and a length-0 symbol neither receives a code nor shifts one.
pub proof fn lemma_unused_symbols_immaterial(s: Seq<usize>, i: int)
    requires
        0 <= i < s.len(),
        s[i] != 0,
    ensures
        strip_zeros(s.take(i)).len() < strip_zeros(s).len(),
        strip_zeros(s)[strip_zeros(s.take(i)).len() as int] == s[i],
        canonical_codes(strip_zeros(s))[strip_zeros(s.take(i)).len() as int] == canonical_codes(
            s,
        )[i],
{
    let t = strip_zeros(s);
    let a = strip_zeros(s.take(i));
    let j = a.len() as int;
    let l = s[i] as nat;
    lemma_strip_zeros_prefix(s, i);
    lemma_strip_zeros_prefix(s, i + 1);
    assert(s.take(i + 1).drop_last() =~= s.take(i));
    assert(s.take(i + 1).last() == s[i]);
    let b = strip_zeros(s.take(i + 1));
    assert(b == a.push(s[i]));
    assert(b == t.take(j + 1));
    assert(b.len() == j + 1);
    assert(b[j] == s[i]);
    assert(t.take(j + 1)[j] == t[j]);
    assert(t[j] == s[i]);
    lemma_strip_zeros_next_code(s, l);
    assert(t.take(j) == a);
    lemma_strip_zeros_count(s.take(i), l);
    assert(count_len(t.take(j), l) == count_len(s.take(i), l));
    assert(code_of(t, j) == code_of(s, i));
}

/// The code of a used symbol fits in its own bit-length: it is strictly
/// below `pow2` of that length.
pub proof fn lemma_code_fits_length(s: Seq<usize>, maxbits: nat, i: int)
    requires
        valid_lengths(s, maxbits),
        kraft_ok(s, maxbits),
        0 <= i < s.len(),
        s[i] != 0,
    ensures
        canonical_codes(s)[i] < pow2(s[i] as nat),
{
    let l = s[i] as nat;
    lemma_count_take_step(s, i, l);
    lemma_count_take_mono(s, i + 1, l);
    lemma_kraft_bound(s, maxbits, l);
}

/// Prefix-freedom: reading codes as big-endian bit strings of their own
/// lengths, no used symbol's code is a prefix of another's.  For `i != j`
/// with `s[i] <= s[j]`, the high `s[i]` bits of the code at `j` — its value
/// shifted right by `s[j] - s[i]` — differ from the code at `i`.
pub proof fn lemma_prefix_free(s: Seq<usize>, maxbits: nat, i: int, j: int)
    requires
        valid_lengths(s, maxbits),
        kraft_ok(s, maxbits),
        0 <= i < s.len(),
        0 <= j < s.len(),
        i != j,
        s[i] != 0,
        s[j] != 0,
        s[i] <= s[j],
    ensures
        canonical_codes(s)[j] / pow2((s[j] - s[i]) as nat) != canonical_codes(s)[i],
{
    let l1 = s[i] as nat;
    let l2 = s[j] as nat;
    let ci = code_of(s, i);
    let cj = code_of(s, j);
    lemma_count_take_step(s, i, l1);
    lemma_count_take_mono(s, i + 1, l1);
    assert(ci < next_code(s, l1) + count_len(s, l1));
    if l1 == l2 {
        assert(pow2(0) == 1) by {
            lemma2_to64();
        }
        lemma_div_basics_2(cj as int);
        if i < j {
            lemma_count_prefix_mono(s, i + 1, j, l1);
        } else {
            lemma_count_take_step(s, j, l1);
            lemma_count_prefix_mono(s, j + 1, i, l1);
        }
    } else {
        let d = pow2((l2 - l1) as nat);
        let bound = next_code(s, l1) + count_len(s, l1);
        lemma_next_code_growth(s, l1, l2);
        assert(cj >= d * bound);
        lemma_pow2_pos((l2 - l1) as nat);
        lemma_div_multiples_vanish(bound as int, d as int);
        lemma_div_is_ordered((d * bound) as int, cj as int, d as int);
        assert(cj / d >= bound);
        assert(ci < bound);
    }
}

} // verus!
