//! The length-solver adapter.
//!
//! Choosing the bit-lengths under a maximum-length constraint is the job of
//! an external length-limited (package-merge style) algorithm; this crate
//! only consumes its output.  The solver is injected through the
//! `LengthSolver` trait so the assigner can also be exercised with
//! hand-constructed length arrays.  Nothing is assumed of an
//! implementation: whatever array comes back goes through
//! `accept_solver_answer` or `accept_and_assign`, whose contracts say, for
//! every possible answer, exactly what is returned — the answer itself
//! when it meets the solver's contract, an error otherwise, never a
//! truncated length.

use vstd::prelude::*;
use crate::model::canonical_codes;
use crate::model::valid_lengths;
use crate::model::kraft_ok;
use crate::assign::CodeError;
use crate::assign::kraft_holds;
use crate::assign::lengths_to_symbols;

verus! {

/// The length-limited code-length solver, an injected capability.  Given
/// one frequency per symbol and the format's ceiling on code lengths, an
/// implementation proposes one bit-length per symbol.  No contract is
/// assumed here: the adapter validates every answer at run time.
pub trait LengthSolver {
    /// Proposes a bit-length for every symbol of `frequencies`, each at
    /// most `maxbits`, with length 0 for zero-frequency symbols.
    fn solve(&self, frequencies: &[usize], maxbits: u32) -> Vec<usize>;
}

/// One entry of a well-formed solver answer: an unused symbol gets length
/// 0, a used one a length in `[1, maxbits]`.
pub open spec fn solver_entry_ok(freq: usize, len: usize, maxbits: nat) -> bool {
    &&& (freq == 0 ==> len == 0)
    &&& (freq != 0 ==> 1 <= len as nat <= maxbits)
}

/// The solver's full contract on its output: one length per symbol, each
/// entry well-formed, and the whole multiset Kraft-feasible.
pub open spec fn solver_output_ok(freqs: Seq<usize>, maxbits: nat, lens: Seq<usize>) -> bool {
    &&& lens.len() == freqs.len()
    &&& (forall|i: int|
        0 <= i < freqs.len() ==> #[trigger] solver_entry_ok(freqs[i], lens[i], maxbits))
    &&& kraft_ok(lens, maxbits)
}

/// The lengths a solver hands back, reread as the model's element type.
pub open spec fn as_usize_lengths(v: Seq<u32>) -> Seq<usize> {
    v.map_values(|x: u32| x as usize)
}

/// A well-formed solver answer in particular keeps every length within
/// `maxbits`.
pub proof fn lemma_solver_output_valid(freqs: Seq<usize>, maxbits: nat, lens: Seq<usize>)
    requires
        solver_output_ok(freqs, maxbits, lens),
    ensures
        valid_lengths(lens, maxbits),
{
    assert forall|k: int| 0 <= k < lens.len() implies lens[k] as nat <= maxbits by {
        assert(solver_entry_ok(freqs[k], lens[k], maxbits));
    }
}

/// Decides exactly whether a solver answer meets the solver's contract for
/// the given frequencies.
pub fn validate_solver_lengths(frequencies: &[usize], maxbits: u32, lens: &[usize]) -> (ok: bool)
    requires
        maxbits <= 31,
    ensures
        ok == solver_output_ok(frequencies@, maxbits as nat, lens@),
{
    if lens.len() != frequencies.len() {
        return false;
    }
    let n = lens.len();
    let mut i: usize = 0;
    while i < n
        invariant
            i <= n == lens@.len(),
            n == frequencies@.len(),
            maxbits <= 31,
            forall|k: int|
                0 <= k < i ==> #[trigger] solver_entry_ok(
                    frequencies@[k],
                    lens@[k],
                    maxbits as nat,
                ),
        decreases n - i,
    {
        let f = frequencies[i];
        let l = lens[i];
        if f == 0 {
            if l != 0 {
                assert(!solver_entry_ok(frequencies@[i as int], lens@[i as int], maxbits as nat));
                return false;
            }
        } else {
            if l == 0 || l > maxbits as usize {
                assert(!solver_entry_ok(frequencies@[i as int], lens@[i as int], maxbits as nat));
                return false;
            }
        }
        i = i + 1;
    }
    assert forall|k: int| 0 <= k < lens@.len() implies lens@[k] as nat <= maxbits as nat by {
        assert(solver_entry_ok(frequencies@[k], lens@[k], maxbits as nat));
    }
    kraft_holds(lens, maxbits)
}

/// Rereads a length array at the code-value width, element for element.
fn widen_lengths(lens: &[usize], maxbits: u32) -> (out: Vec<u32>)
    requires
        maxbits <= 31,
        valid_lengths(lens@, maxbits as nat),
    ensures
        as_usize_lengths(out@) == lens@,
{
    let n = lens.len();
    let mut out: Vec<u32> = Vec::new();
    let mut i: usize = 0;
    while i < n
        invariant
            i <= n == lens@.len(),
            maxbits <= 31,
            valid_lengths(lens@, maxbits as nat),
            out@.len() == i,
            forall|k: int| 0 <= k < i ==> out@[k] as usize == lens@[k],
        decreases n - i,
    {
        let l = lens[i];
        assert(lens@[i as int] as nat <= maxbits as nat);
        out.push(l as u32);
        i = i + 1;
    }
    proof {
        assert(as_usize_lengths(out@) =~= lens@);
    }
    out
}

/// Accepts or rejects one solver answer: exactly the answers meeting the
/// solver's contract come back, reread at the code-value width and
/// otherwise untouched; every other answer is refused, never truncated.
pub fn accept_solver_answer(frequencies: &[usize], maxbits: u32, lens: Vec<usize>) -> (r: Result<
    Vec<u32>,
    CodeError,
>)
    requires
        maxbits <= 31,
    ensures
        (match r {
            Ok(bitlengths) => solver_output_ok(frequencies@, maxbits as nat, lens@)
                && as_usize_lengths(bitlengths@) == lens@,
            Err(e) => e == CodeError::SolverContract && !solver_output_ok(
                frequencies@,
                maxbits as nat,
                lens@,
            ),
        }),
{
    if !validate_solver_lengths(frequencies, maxbits, lens.as_slice()) {
        return Err(CodeError::SolverContract);
    }
    proof {
        lemma_solver_output_valid(frequencies@, maxbits as nat, lens@);
    }
    Ok(widen_lengths(lens.as_slice(), maxbits))
}

/// Accepts one solver answer and assigns the canonical codes for it: on a
/// well-formed answer, the answer itself (reread at the code-value width)
/// and the canonical code of every symbol come back; a malformed answer is
/// refused.
pub fn accept_and_assign(frequencies: &[usize], maxbits: u32, lens: Vec<usize>) -> (r: Result<
    (Vec<u32>, Vec<u32>),
    CodeError,
>)
    requires
        maxbits <= 31,
    ensures
        (match r {
            Ok(p) => solver_output_ok(frequencies@, maxbits as nat, lens@) && as_usize_lengths(
                p.0@,
            ) == lens@ && p.1@.len() == lens@.len() && (forall|i: int|
                0 <= i < lens@.len() ==> p.1@[i] as nat == canonical_codes(lens@)[i]),
            Err(e) => e == CodeError::SolverContract && !solver_output_ok(
                frequencies@,
                maxbits as nat,
                lens@,
            ),
        }),
{
    if !validate_solver_lengths(frequencies, maxbits, lens.as_slice()) {
        return Err(CodeError::SolverContract);
    }
    proof {
        lemma_solver_output_valid(frequencies@, maxbits as nat, lens@);
    }
    let codes = lengths_to_symbols(lens.as_slice(), maxbits);
    let widened = widen_lengths(lens.as_slice(), maxbits);
    Ok((widened, codes))
}

/// Calculates the bit-lengths for the Huffman tree from the counts of each
/// symbol: delegates to the injected length-limited solver and hands the
/// answer, untouched, to `accept_solver_answer`, which checks it against
/// the solver's contract and surfaces a breach — including a `maxbits` too
/// small for the used symbols — as an error rather than a silently
/// truncated length.
pub fn zopfli_calculate_bit_lengths<S: LengthSolver>(
    solver: &S,
    frequencies: &[usize],
    maxbits: u32,
) -> (r: Result<Vec<u32>, CodeError>)
    requires
        maxbits <= 31,
    ensures
        (match r {
            Ok(bitlengths) => bitlengths@.len() == frequencies@.len() && solver_output_ok(
                frequencies@,
                maxbits as nat,
                as_usize_lengths(bitlengths@),
            ),
            Err(e) => e == CodeError::SolverContract,
        }),
{
    accept_solver_answer(frequencies, maxbits, solver.solve(frequencies, maxbits))
}

/// Composes the adapter and the assigner: frequencies in, the bit-length
/// of every symbol and its canonical code out.  The solver's answer goes,
/// untouched, through `accept_and_assign`: the call succeeds exactly when
/// the answer meets the solver's contract, and a breach is propagated
/// unchanged, with no fallback encoding.
pub fn solve_and_assign<S: LengthSolver>(
    solver: &S,
    frequencies: &[usize],
    maxbits: u32,
) -> (r: Result<(Vec<u32>, Vec<u32>), CodeError>)
    requires
        maxbits <= 31,
    ensures
        (match r {
            Ok(p) => p.0@.len() == frequencies@.len() && solver_output_ok(
                frequencies@,
                maxbits as nat,
                as_usize_lengths(p.0@),
            ) && p.1@.len() == frequencies@.len() && (forall|i: int|
                0 <= i < frequencies@.len() ==> p.1@[i] as nat == canonical_codes(
                    as_usize_lengths(p.0@),
                )[i]),
            Err(e) => e == CodeError::SolverContract,
        }),
{
    accept_and_assign(frequencies, maxbits, solver.solve(frequencies, maxbits))
}

} // verus!
