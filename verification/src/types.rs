use vstd::prelude::*;

verus! {

/// The shape of a value as the ownership discipline sees it: fixed-size
/// scalars live on the stack and are freely duplicable, buffers own heap
/// storage, and pairs combine two shapes.
#[derive(Debug)]
pub enum Ty {
    /// A fixed-size integer.
    Int,
    /// A boolean.
    Bool,
    /// A character.
    Char,
    /// A heap-resident buffer (pointer, length, capacity on the stack;
    /// contents on the heap).
    Buffer,
    /// A product of two types.
    Pair(Box<Ty>, Box<Ty>),
}

impl Ty {
    /// A type is copy-eligible when it is a fixed-size scalar or a product
    /// built solely from copy-eligible types; a heap-resident buffer is not.
    pub open spec fn is_copy(self) -> bool
        decreases self,
    {
        match self {
            Ty::Int => true,
            Ty::Bool => true,
            Ty::Char => true,
            Ty::Buffer => false,
            Ty::Pair(a, b) => a.is_copy() && b.is_copy(),
        }
    }
}

/// Decides copy-eligibility: assignment of a copy-eligible value duplicates
/// it and leaves the source usable; assignment of any other value moves
/// ownership and invalidates the source.
pub fn classify_copy(ty: &Ty) -> (r: bool)
    ensures
        r == ty.is_copy(),
    decreases *ty,
{
    match ty {
        Ty::Int => true,
        Ty::Bool => true,
        Ty::Char => true,
        Ty::Buffer => false,
        Ty::Pair(a, b) => {
            let ca = classify_copy(a);
            let cb = classify_copy(b);
            ca && cb
        },
    }
}

} // verus!
