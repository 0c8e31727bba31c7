//! A growable array that keeps its elements in one block of slots and
//! doubles the block when it is full.
//!
//! The block is a vector of optional slots: the first `len` slots hold the
//! live elements, the others are vacant. The capacity policy lives in
//! [`growth`], the container in [`levec`], and the laws that relate several
//! operations in [`laws`].

pub mod growth;
pub mod laws;
pub mod levec;

pub use growth::PushError;
pub use levec::LeVec;
