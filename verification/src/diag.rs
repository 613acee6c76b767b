use vstd::prelude::*;

verus! {

/// The closed set of diagnostics the discipline can report. A program
/// containing any of these is rejected before execution; there is no
/// runtime recovery path.
#[derive(Clone, Copy, Debug, PartialEq, Eq, Structural)]
pub enum Violation {
    /// A binding was read after its value was moved out or dropped.
    UseAfterMove,
    /// A shared and an exclusive borrow, or a mutation under a live
    /// borrow, overlap on the same binding.
    AliasConflict,
    /// A reference's span outlives the validity span of its target binding.
    DanglingReference,
    /// A slice range does not lie within the target sequence.
    OutOfRange,
    /// Two exclusive borrows of the same binding overlap.
    DoubleMutableBorrow,
}

/// Validity state of a binding over its lifetime.
#[derive(Clone, Copy, Debug, PartialEq, Eq, Structural)]
pub enum BindingState {
    /// The binding currently owns (or holds a copy of) a value.
    Valid,
    /// The value was moved to another binding; reads are rejected.
    MovedOut,
    /// The binding's scope ended and its value was released.
    Dropped,
}

} // verus!
