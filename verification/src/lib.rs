//! A verified model of single-ownership, borrowing, and slicing semantics.
//!
//! Bindings own values; assignment moves a heap-resident value (invalidating
//! the source) or copies a fixed-size scalar; references view a binding
//! shared or exclusively, subject to the many-readers-xor-one-writer rule;
//! slices view a contiguous sub-range of a sequence-valued binding. The
//! [`checker`] module decides, for each access, whether the discipline
//! admits it, and the aliasing and lifetime laws are stated and proved.

pub mod checker;
pub mod diag;
pub mod slices;
pub mod span;
pub mod strings;
pub mod types;
