//! Visibility of writes on memory-mapped surfaces.
//!
//! A store to video memory may linger in a write buffer. Reading the byte
//! back through an optimization barrier keeps the load in the program, so
//! that each store is followed by an access to the same location.
use vstd::prelude::*;

verus! {

/// `core::hint::black_box` is documented as an identity function that the
/// optimizer must treat as opaque: it returns its argument.
pub assume_specification<T>[ core::hint::black_box::<T> ](dummy: T) -> (r: T)
    ensures
        r == dummy,
;

/// Reads back the byte at `offset`, which must lie in the surface.
pub fn read_back(surface: &[u8], offset: usize) -> (byte: u8)
    requires
        offset < surface@.len(),
    ensures
        byte == surface@[offset as int],
{
    core::hint::black_box(surface[offset])
}

} // verus!
