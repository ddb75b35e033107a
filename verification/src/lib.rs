//! Canonical Huffman code construction for a DEFLATE-compatible entropy coder.
//!
//! The crate turns an array of per-symbol code bit-lengths into the canonical
//! bit patterns that the DEFLATE format prescribes, and proves that the
//! assignment is deterministic, gives consecutive values to codes of equal
//! length, and yields a prefix-free code whenever the lengths satisfy the
//! Kraft inequality.  The length-limited solver that chooses the bit-lengths
//! is out of scope and is injected by the caller through a trait.

pub mod model;
pub mod bounds;
pub mod assign;
pub mod laws;
pub mod solver;

pub use assign::CodeError;
pub use assign::kraft_holds;
pub use assign::lengths_within_maxbits;
pub use assign::lengths_to_symbols;
pub use assign::try_lengths_to_symbols;
pub use solver::LengthSolver;
pub use solver::validate_solver_lengths;
pub use solver::accept_solver_answer;
pub use solver::accept_and_assign;
pub use solver::zopfli_calculate_bit_lengths;
pub use solver::solve_and_assign;
