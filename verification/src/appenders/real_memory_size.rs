//! Logical byte sizes of buffered values, the basis of the row-group
//! byte accounting.

use vstd::prelude::*;

verus! {

/// The logical size of a buffered value in bytes.
pub trait RealMemorySize {
    /// The byte size this value contributes to a row-group budget.
    fn real_memory_size(&self) -> usize;
}

impl RealMemorySize for bool {
    fn real_memory_size(&self) -> (r: usize)
        ensures
            r == 1,
    {
        1
    }
}

impl RealMemorySize for i8 {
    fn real_memory_size(&self) -> (r: usize)
        ensures
            r == 1,
    {
        1
    }
}

impl RealMemorySize for u8 {
    fn real_memory_size(&self) -> (r: usize)
        ensures
            r == 1,
    {
        1
    }
}

impl RealMemorySize for i16 {
    fn real_memory_size(&self) -> (r: usize)
        ensures
            r == 2,
    {
        2
    }
}

impl RealMemorySize for u16 {
    fn real_memory_size(&self) -> (r: usize)
        ensures
            r == 2,
    {
        2
    }
}

impl RealMemorySize for i32 {
    fn real_memory_size(&self) -> (r: usize)
        ensures
            r == 4,
    {
        4
    }
}

impl RealMemorySize for u32 {
    fn real_memory_size(&self) -> (r: usize)
        ensures
            r == 4,
    {
        4
    }
}

impl RealMemorySize for i64 {
    fn real_memory_size(&self) -> (r: usize)
        ensures
            r == 8,
    {
        8
    }
}

impl RealMemorySize for u64 {
    fn real_memory_size(&self) -> (r: usize)
        ensures
            r == 8,
    {
        8
    }
}

impl RealMemorySize for Vec<u8> {
    fn real_memory_size(&self) -> (r: usize)
        ensures
            r == self@.len(),
    {
        self.len()
    }
}

} // verus!
