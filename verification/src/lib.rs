//! Two parts of the runtime of the Nickel language.
//!
//! The first is a precise, moving garbage collector: a heap of fixed-size
//! blocks, a table of reference-counted roots kept in the block headers,
//! and an evacuating collection cycle that relocates what the roots reach.
//! The second is error reporting: the errors of the phases of execution,
//! and the diagnostics that report them.

pub mod layout;
pub mod status;
pub mod block;
pub mod space;
pub mod info;
pub mod root;
pub mod heap;
pub mod collect;
pub mod laws;
pub mod escape;
pub mod files;
pub mod text;
pub mod diagnostic;
pub mod error;
pub mod callstack;
pub mod label;
pub mod eval_error;
pub mod typecheck_error;
pub mod report;
