//! The canonical code assigner: from bit-lengths to DEFLATE bit patterns.
//!
//! `lengths_to_symbols` reproduces the construction the DEFLATE format
//! prescribes — count the codes of each length, derive each length's
//! starting code, then hand out consecutive values in ascending symbol
//! order — and is proved to return exactly the model's `canonical_codes`.
//! `try_lengths_to_symbols` is the total entry point: it rejects a length
//! above `maxbits` or a length multiset breaking the Kraft inequality
//! instead of requiring them away.

use vstd::prelude::*;
use vstd::arithmetic::power2::pow2;
use vstd::arithmetic::power2::lemma2_to64;
use vstd::arithmetic::power2::lemma_pow2_unfold;
use vstd::arithmetic::power2::lemma_pow2_strictly_increases;
use crate::model::count_len;
use crate::model::next_code;
use crate::model::code_of;
use crate::model::canonical_codes;
use crate::model::valid_lengths;
use crate::model::kraft_sum;
use crate::model::kraft_ok;
use crate::model::lemma_count_le_len;
use crate::model::lemma_count_take_step;
use crate::model::lemma_count_take_mono;
use crate::model::lemma_kraft_take_step;
use crate::model::lemma_kraft_take_mono;
use crate::bounds::lemma_kraft_bound;

verus! {

/// How a call on a malformed input fails.  A wrong bit-length or code would
/// corrupt the whole encoded stream, so none of these is ever corrected
/// silently and a caller is not expected to recover from them.
#[derive(Clone, Copy, Debug, PartialEq, Eq)]
pub enum CodeError {
    /// A supplied bit-length exceeds `maxbits`: the assigner's fatal
    /// precondition violation.
    LengthExceedsMaxbits,
    /// The bit-length multiset breaks the Kraft inequality, so no
    /// prefix-free code with these lengths exists.
    KraftViolated,
    /// The injected length solver returned an array that breaks its
    /// contract, or could not satisfy `maxbits` for the given frequencies.
    SolverContract,
}

/// 2 to the `e`, computed executably.
fn pow2_u64(e: u32) -> (r: u64)
    requires
        e <= 31,
    ensures
        r == pow2(e as nat),
{
    proof {
        lemma2_to64();
    }
    let mut r: u64 = 1;
    let mut i: u32 = 0;
    while i < e
        invariant
            i <= e <= 31,
            r == pow2(i as nat),
        decreases e - i,
    {
        proof {
            lemma2_to64();
            lemma_pow2_unfold((i + 1) as nat);
            if (i + 1) < 31 {
                lemma_pow2_strictly_increases((i + 1) as nat, 31nat);
            }
        }
        r = r * 2;
        i = i + 1;
    }
    r
}

/// True exactly when every length lies within `maxbits`.
pub fn lengths_within_maxbits(lengths: &[usize], maxbits: u32) -> (ok: bool)
    ensures
        ok == valid_lengths(lengths@, maxbits as nat),
{
    let n = lengths.len();
    let mut i: usize = 0;
    while i < n
        invariant
            i <= n == lengths@.len(),
            forall|k: int| 0 <= k < i ==> lengths@[k] as nat <= maxbits as nat,
        decreases n - i,
    {
        if lengths[i] > maxbits as usize {
            return false;
        }
        i = i + 1;
    }
    true
}

/// True exactly when the lengths satisfy the Kraft inequality.
pub fn kraft_holds(lengths: &[usize], maxbits: u32) -> (ok: bool)
    requires
        valid_lengths(lengths@, maxbits as nat),
        maxbits <= 31,
    ensures
        ok == kraft_ok(lengths@, maxbits as nat),
{
    let limit: u64 = pow2_u64(maxbits);
    let n = lengths.len();
    let mut sum: u64 = 0;
    let mut i: usize = 0;
    while i < n
        invariant
            i <= n == lengths@.len(),
            valid_lengths(lengths@, maxbits as nat),
            maxbits <= 31,
            limit == pow2(maxbits as nat),
            sum == kraft_sum(lengths@.take(i as int), maxbits as nat),
            sum <= limit,
        decreases n - i,
    {
        let l = lengths[i];
        proof {
            lemma_kraft_take_step(lengths@, i as int, maxbits as nat);
            lemma2_to64();
        }
        if l != 0 {
            proof {
                if (maxbits as nat - l as nat) < maxbits as nat {
                    lemma_pow2_strictly_increases(
                        (maxbits as nat - l as nat) as nat,
                        maxbits as nat,
                    );
                }
            }
            let term = pow2_u64(maxbits - l as u32);
            sum = sum + term;
            if sum > limit {
                proof {
                    lemma_kraft_take_mono(lengths@, i + 1, maxbits as nat);
                }
                return false;
            }
        }
        i = i + 1;
    }
    proof {
        assert(lengths@.take(n as int) =~= lengths@);
    }
    true
}

/// Converts a series of Huffman tree bit-lengths to the canonical bit
/// values of the symbols, per the DEFLATE construction: symbols of equal
/// length get consecutive codes in ascending index order, starting from
/// each length's `next_code` value.  Unused symbols (length 0) keep the
/// value 0, which a compliant bit-stream writer never emits.
pub fn lengths_to_symbols(lengths: &[usize], maxbits: u32) -> (symbols: Vec<u32>)
    requires
        maxbits <= 31,
        valid_lengths(lengths@, maxbits as nat),
        kraft_ok(lengths@, maxbits as nat),
    ensures
        symbols@.len() == lengths@.len(),
        forall|i: int|
            0 <= i < lengths@.len() ==> symbols@[i] as nat == canonical_codes(lengths@)[i],
{
    let ghost s = lengths@;
    let n = lengths.len();
    let mb = maxbits as usize;

    let mut bl_count: Vec<usize> = Vec::new();
    let mut k: usize = 0;
    while k < mb + 1
        invariant
            mb <= 31,
            k <= mb + 1,
            bl_count@.len() == k,
            forall|j: int| 0 <= j < k ==> bl_count@[j] == 0,
        decreases mb + 1 - k,
    {
        bl_count.push(0);
        k = k + 1;
    }

    // 1) Count the number of codes for each code length.
    let mut i: usize = 0;
    while i < n
        invariant
            i <= n == s.len(),
            s == lengths@,
            valid_lengths(s, maxbits as nat),
            mb == maxbits as usize,
            bl_count@.len() == mb + 1,
            forall|j: int| 0 <= j <= mb ==> bl_count@[j] == count_len(s.take(i as int), j as nat),
        decreases n - i,
    {
        let l = lengths[i];
        proof {
            assert(s[i as int] as nat <= maxbits as nat);
            assert forall|j: int| 0 <= j <= mb implies #[trigger] count_len(s.take(i + 1), j as nat)
                == count_len(s.take(i as int), j as nat) + (if s[i as int] as nat == j as nat {
                1nat
            } else {
                0nat
            }) by {
                lemma_count_take_step(s, i as int, j as nat);
            }
            lemma_count_le_len(s.take(i + 1), l as nat);
        }
        let cur = bl_count[l];
        bl_count[l] = cur + 1;
        i = i + 1;
    }
    proof {
        assert(s.take(n as int) =~= s);
    }

    // 2) Find the numerical value of the smallest code for each code length.
    bl_count[0] = 0;
    let mut code: u32 = 0;
    let mut nc: Vec<u32> = Vec::new();
    nc.push(0);
    let mut bits: usize = 1;
    while bits <= mb
        invariant
            1 <= bits <= mb + 1,
            s == lengths@,
            valid_lengths(s, maxbits as nat),
            kraft_ok(s, maxbits as nat),
            maxbits <= 31,
            mb == maxbits as usize,
            bl_count@.len() == mb + 1,
            bl_count@[0] == 0,
            forall|j: int| 1 <= j <= mb ==> bl_count@[j] == count_len(s, j as nat),
            nc@.len() == bits,
            forall|j: int| 0 <= j < bits ==> nc@[j] as nat == next_code(s, j as nat),
            code as nat == next_code(s, (bits - 1) as nat),
        decreases mb + 1 - bits,
    {
        let cnt = bl_count[bits - 1];
        proof {
            lemma2_to64();
            if bits >= 2 {
                lemma_kraft_bound(s, maxbits as nat, (bits - 1) as nat);
                if (bits - 1) < 31 {
                    lemma_pow2_strictly_increases((bits - 1) as nat, 31nat);
                }
            }
            lemma_kraft_bound(s, maxbits as nat, bits as nat);
            if bits < 31 {
                lemma_pow2_strictly_increases(bits as nat, 31nat);
            }
        }
        code = (code + cnt as u32) * 2;
        nc.push(code);
        bits = bits + 1;
    }

    // 3) Assign numerical values to all codes, using consecutive values for
    // all codes of the same length.
    let mut symbols: Vec<u32> = Vec::new();
    let mut k2: usize = 0;
    while k2 < n
        invariant
            k2 <= n,
            symbols@.len() == k2,
            forall|j: int| 0 <= j < k2 ==> symbols@[j] == 0,
        decreases n - k2,
    {
        symbols.push(0);
        k2 = k2 + 1;
    }

    let mut i2: usize = 0;
    while i2 < n
        invariant
            i2 <= n == s.len(),
            s == lengths@,
            valid_lengths(s, maxbits as nat),
            kraft_ok(s, maxbits as nat),
            maxbits <= 31,
            mb == maxbits as usize,
            symbols@.len() == n,
            nc@.len() == mb + 1,
            nc@[0] == 0,
            forall|j: int|
                1 <= j <= mb ==> nc@[j] as nat == next_code(s, j as nat) + count_len(
                    s.take(i2 as int),
                    j as nat,
                ),
            forall|j: int| 0 <= j < i2 ==> symbols@[j] as nat == canonical_codes(s)[j],
            forall|j: int| i2 <= j < n ==> symbols@[j] == 0,
        decreases n - i2,
    {
        let l = lengths[i2];
        proof {
            assert forall|j: int| 1 <= j <= mb implies #[trigger] count_len(s.take(i2 + 1), j as nat)
                == count_len(s.take(i2 as int), j as nat) + (if s[i2 as int] as nat == j as nat {
                1nat
            } else {
                0nat
            }) by {
                lemma_count_take_step(s, i2 as int, j as nat);
            }
        }
        if l != 0 {
            proof {
                lemma_count_take_mono(s, i2 + 1, l as nat);
                lemma_kraft_bound(s, maxbits as nat, l as nat);
                lemma2_to64();
                if (l as nat) < 31 {
                    lemma_pow2_strictly_increases(l as nat, 31nat);
                }
            }
            let c = nc[l];
            symbols[i2] = c;
            nc[l] = c + 1;
            proof {
                assert(c as nat == code_of(s, i2 as int));
                assert(canonical_codes(s)[i2 as int] == code_of(s, i2 as int));
            }
        } else {
            proof {
                assert(canonical_codes(s)[i2 as int] == 0nat);
            }
        }
        i2 = i2 + 1;
    }
    symbols
}

/// Total canonical code assignment: checks the assigner's preconditions at
/// run time and fails loudly — with an error a caller is not meant to
/// recover from — instead of producing a corrupt table.
pub fn try_lengths_to_symbols(lengths: &[usize], maxbits: u32) -> (r: Result<Vec<u32>, CodeError>)
    requires
        maxbits <= 31,
    ensures
        (match r {
            Ok(symbols) => valid_lengths(lengths@, maxbits as nat) && kraft_ok(
                lengths@,
                maxbits as nat,
            ) && symbols@.len() == lengths@.len() && (forall|i: int|
                0 <= i < lengths@.len() ==> symbols@[i] as nat == canonical_codes(lengths@)[i]),
            Err(e) => (e == CodeError::LengthExceedsMaxbits && !valid_lengths(
                lengths@,
                maxbits as nat,
            )) || (e == CodeError::KraftViolated && valid_lengths(lengths@, maxbits as nat)
                && !kraft_ok(lengths@, maxbits as nat)),
        }),
        // any length above maxbits is fatal: no code array comes back
        !valid_lengths(lengths@, maxbits as nat) ==> r == Err::<
            Vec<u32>,
            CodeError,
        >(CodeError::LengthExceedsMaxbits),
        valid_lengths(lengths@, maxbits as nat) && !kraft_ok(lengths@, maxbits as nat) ==> r
            == Err::<Vec<u32>, CodeError>(CodeError::KraftViolated),
{
    if !lengths_within_maxbits(lengths, maxbits) {
        return Err(CodeError::LengthExceedsMaxbits);
    }
    if !kraft_holds(lengths, maxbits) {
        return Err(CodeError::KraftViolated);
    }
    Ok(lengths_to_symbols(lengths, maxbits))
}

} // verus!
