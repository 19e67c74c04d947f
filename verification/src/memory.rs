//! Memory layout and allocation error types.

use vstd::prelude::*;

verus! {

/// Layout of a block of memory: its size and alignment in bytes.
#[derive(Copy, Clone)]
pub struct MemoryLayout {
    pub size: usize,
    pub align: usize,
}

impl MemoryLayout {
    /// A layout describes a type when its size and alignment are those of the type.
    pub open spec fn describes<T>(self) -> bool {
        &&& self.size as nat == vstd::layout::size_of::<T>()
        &&& self.align as nat == vstd::layout::align_of::<T>()
    }

    /// Construct a new memory layout capable of representing `T`.
    pub fn new<T>() -> (layout: Self)
        ensures
            layout.describes::<T>(),
            layout.align != 0,
            layout.size % layout.align == 0,
    {
        vstd::layout::layout_for_type_is_valid::<T>();
        Self { size: core::mem::size_of::<T>(), align: core::mem::align_of::<T>() }
    }

    /// Indicates if a memory layout is zero sized, in which case
    /// no memory should actually be allocated.
    pub fn is_zero_sized(&self) -> (r: bool)
        ensures
            r == (self.size == 0),
    {
        self.size == 0
    }
}

/// An allocation failure, due to resource exhaustion or to an input that
/// the allocator cannot serve.
#[derive(Copy, Clone, PartialEq, Eq, Debug, Structural)]
pub struct AllocError;

impl AllocError {
    /// The human readable description of the failure.
    pub fn message(&self) -> (r: &'static str)
        ensures
            r@ == "memory allocation failed"@,
    {
        "memory allocation failed"
    }
}

/// The global memory allocator.
pub struct GlobalAllocator;

} // verus!
