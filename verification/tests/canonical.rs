use zopfli_tree::CodeError;
use zopfli_tree::accept_and_assign;
use zopfli_tree::accept_solver_answer;
use zopfli_tree::LengthSolver;
use zopfli_tree::kraft_holds;
use zopfli_tree::lengths_to_symbols;
use zopfli_tree::lengths_within_maxbits;
use zopfli_tree::solve_and_assign;
use zopfli_tree::try_lengths_to_symbols;
use zopfli_tree::validate_solver_lengths;
use zopfli_tree::zopfli_calculate_bit_lengths;

/// A solver stand-in that answers with a fixed, hand-constructed length
/// array, so the assigner and the adapter can be exercised without the
/// external optimization algorithm.
struct FixedSolver {
    lens: Vec<usize>,
}

impl LengthSolver for FixedSolver {
    fn solve(&self, _frequencies: &[usize], _maxbits: u32) -> Vec<usize> {
        self.lens.clone()
    }
}

#[test]
fn rfc_example() {
    let lengths: Vec<usize> = vec![3, 3, 3, 3, 3, 2, 4, 4];
    let codes = lengths_to_symbols(&lengths, 4);
    assert_eq!(codes, vec![2, 3, 4, 5, 6, 0, 14, 15]);
}

#[test]
fn unused_symbol_scenario() {
    let lengths: Vec<usize> = vec![0, 1, 2, 2];
    let codes = lengths_to_symbols(&lengths, 2);
    assert_eq!(codes, vec![0, 0, 2, 3]);
}

#[test]
fn empty_lengths_give_empty_codes() {
    let lengths: Vec<usize> = vec![];
    let codes = lengths_to_symbols(&lengths, 15);
    assert!(codes.is_empty());
    let codes = lengths_to_symbols(&lengths, 0);
    assert!(codes.is_empty());
}

#[test]
fn all_symbols_unused() {
    let lengths: Vec<usize> = vec![0, 0, 0];
    assert_eq!(lengths_to_symbols(&lengths, 7), vec![0, 0, 0]);
}

#[test]
fn single_symbol_gets_code_zero() {
    let lengths: Vec<usize> = vec![1];
    let codes = lengths_to_symbols(&lengths, 1);
    assert_eq!(codes, vec![0]);
    let codes = lengths_to_symbols(&lengths, 15);
    assert_eq!(codes, vec![0]);
}

#[test]
fn equal_lengths_get_consecutive_codes() {
    let lengths: Vec<usize> = vec![2, 2, 2, 2];
    let codes = lengths_to_symbols(&lengths, 2);
    assert_eq!(codes, vec![0, 1, 2, 3]);
}

#[test]
fn deterministic_across_calls() {
    let lengths: Vec<usize> = vec![3, 3, 3, 3, 3, 2, 4, 4];
    let first = lengths_to_symbols(&lengths, 4);
    let second = lengths_to_symbols(&lengths, 4);
    assert_eq!(first, second);
}

#[test]
fn prefix_freedom_on_scenarios() {
    for (lengths, maxbits) in [
        (vec![3usize, 3, 3, 3, 3, 2, 4, 4], 4u32),
        (vec![0usize, 1, 2, 2], 2u32),
    ] {
        let codes = lengths_to_symbols(&lengths, maxbits);
        for i in 0..lengths.len() {
            for j in 0..lengths.len() {
                if i != j && lengths[i] != 0 && lengths[j] != 0 && lengths[i] <= lengths[j] {
                    let shifted = codes[j] >> (lengths[j] - lengths[i]) as u32;
                    assert_ne!(shifted, codes[i], "code {} prefixes code {}", i, j);
                }
            }
        }
    }
}

#[test]
fn length_above_maxbits_is_fatal() {
    let lengths: Vec<usize> = vec![1, 5, 2];
    assert_eq!(
        try_lengths_to_symbols(&lengths, 4),
        Err(CodeError::LengthExceedsMaxbits)
    );
    assert!(!lengths_within_maxbits(&lengths, 4));
    assert!(lengths_within_maxbits(&lengths, 5));
}

#[test]
fn kraft_violation_is_fatal() {
    // Three codes of length 1 cannot be prefix-free.
    let lengths: Vec<usize> = vec![1, 1, 1];
    assert_eq!(
        try_lengths_to_symbols(&lengths, 2),
        Err(CodeError::KraftViolated)
    );
    assert!(!kraft_holds(&lengths, 2));
}

#[test]
fn kraft_boundary_accepted() {
    // Exactly saturating the Kraft sum is still feasible.
    let lengths: Vec<usize> = vec![2, 2, 2, 2];
    assert!(kraft_holds(&lengths, 2));
    assert_eq!(try_lengths_to_symbols(&lengths, 2), Ok(vec![0, 1, 2, 3]));
}

#[test]
fn checked_entry_matches_direct_assignment() {
    let lengths: Vec<usize> = vec![3, 3, 3, 3, 3, 2, 4, 4];
    let direct = lengths_to_symbols(&lengths, 4);
    assert_eq!(try_lengths_to_symbols(&lengths, 4), Ok(direct));
}

#[test]
fn solve_and_assign_composes() {
    let frequencies: Vec<usize> = vec![8, 7, 6, 5, 4, 9, 2, 1];
    let solver = FixedSolver {
        lens: vec![3, 3, 3, 3, 3, 2, 4, 4],
    };
    let (lens, codes) = solve_and_assign(&solver, &frequencies, 4).unwrap();
    assert_eq!(lens, vec![3, 3, 3, 3, 3, 2, 4, 4]);
    assert_eq!(codes, vec![2, 3, 4, 5, 6, 0, 14, 15]);
}

#[test]
fn adapter_accepts_well_formed_answer() {
    let frequencies: Vec<usize> = vec![1, 2, 4, 8];
    let solver = FixedSolver {
        lens: vec![3, 3, 2, 1],
    };
    let lens = zopfli_calculate_bit_lengths(&solver, &frequencies, 15).unwrap();
    assert_eq!(lens, vec![3, 3, 2, 1]);
}

#[test]
fn adapter_rejects_wrong_answer_size() {
    let frequencies: Vec<usize> = vec![1, 2, 4];
    let solver = FixedSolver { lens: vec![1, 1] };
    assert_eq!(
        zopfli_calculate_bit_lengths(&solver, &frequencies, 15),
        Err(CodeError::SolverContract)
    );
}

#[test]
fn adapter_rejects_unused_symbol_with_code() {
    let frequencies: Vec<usize> = vec![0, 2, 4];
    let solver = FixedSolver {
        lens: vec![2, 2, 1],
    };
    assert_eq!(
        zopfli_calculate_bit_lengths(&solver, &frequencies, 15),
        Err(CodeError::SolverContract)
    );
}

#[test]
fn adapter_rejects_infeasible_lengths() {
    // maxbits 1 admits at most two used symbols; length 1 three times
    // breaks the Kraft inequality.
    let frequencies: Vec<usize> = vec![3, 2, 1];
    let solver = FixedSolver {
        lens: vec![1, 1, 1],
    };
    assert_eq!(
        solve_and_assign(&solver, &frequencies, 1),
        Err(CodeError::SolverContract)
    );
}

#[test]
fn zero_lengths_do_not_shift_codes() {
    let with_zeros: Vec<usize> = vec![3, 0, 3, 2, 0, 3, 3, 2];
    let stripped: Vec<usize> = vec![3, 3, 2, 3, 3, 2];
    let full = lengths_to_symbols(&with_zeros, 3);
    let bare = lengths_to_symbols(&stripped, 3);
    assert_eq!(full, vec![4, 0, 5, 0, 0, 6, 7, 1]);
    let used: Vec<u32> = with_zeros
        .iter()
        .zip(full.iter())
        .filter(|(l, _)| **l != 0)
        .map(|(_, c)| *c)
        .collect();
    assert_eq!(used, bare);
}

#[test]
fn answer_acceptance_returns_the_answer() {
    let frequencies: Vec<usize> = vec![1, 2, 4, 8];
    let out = accept_solver_answer(&frequencies, 15, vec![3, 3, 2, 1]).unwrap();
    assert_eq!(out, vec![3, 3, 2, 1]);
    assert_eq!(
        accept_solver_answer(&frequencies, 15, vec![3, 3, 2, 0]),
        Err(CodeError::SolverContract)
    );
    let (lens, codes) = accept_and_assign(&frequencies, 15, vec![3, 3, 2, 1]).unwrap();
    assert_eq!(lens, vec![3, 3, 2, 1]);
    assert_eq!(codes, vec![6, 7, 2, 0]);
    assert_eq!(
        accept_and_assign(&frequencies, 15, vec![3, 3, 2]),
        Err(CodeError::SolverContract)
    );
}

#[test]
fn validation_checks_every_clause() {
    let frequencies: Vec<usize> = vec![1, 0, 2];
    assert!(validate_solver_lengths(&frequencies, 3, &[1, 0, 2]));
    // a used symbol without a code
    assert!(!validate_solver_lengths(&frequencies, 3, &[0, 0, 2]));
    // an unused symbol with a code
    assert!(!validate_solver_lengths(&frequencies, 3, &[1, 1, 2]));
    // a length above maxbits
    assert!(!validate_solver_lengths(&frequencies, 3, &[1, 0, 4]));
    // a Kraft violation
    assert!(!validate_solver_lengths(&vec![1, 1, 1], 1, &[1, 1, 1]));
}
