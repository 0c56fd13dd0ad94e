//! Bit-parallel approximate string matching for patterns of at most 64 symbols.
//!
//! A column of the edit-distance table is packed into two 64-bit words of
//! vertical differences and the distance in its last row. The modules build
//! on each other: word-level primitives, the column state with the rollback
//! of its distance, the matching engine with its transition, the end-only
//! search, the edit operations, the traceback over retained columns, the
//! searches that record their history, and the quadratic table with the
//! proof that the engine computes its columns.

pub mod alignment;
pub mod engine;
pub mod matches;
pub mod numeric;
pub mod search;
pub mod state;
pub mod table;
pub mod traceback;

pub use crate::alignment::{Alignment, AlignmentOperation};
pub use crate::engine::Myers;
pub use crate::matches::Matches;
pub use crate::search::{FullMatches, LazyMatches};
pub use crate::state::State;
pub use crate::traceback::Traceback;
