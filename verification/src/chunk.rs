//! A fixed-size, zero-initialized byte buffer with a write position.

use vstd::prelude::*;

verus! {

/// A byte buffer of fixed size with a running position.
pub struct Chunk {
    pub data: Vec<u8>,
    pub pos: usize,
}

impl Chunk {
    /// Creates a buffer of `size` zero bytes with the position at 0.
    pub fn new(size: usize) -> (c: Chunk)
        ensures
            c.data@.len() == size,
            forall|i: int| 0 <= i < size ==> c.data@[i] == 0u8,
            c.pos == 0,
    {
        let mut data: Vec<u8> = Vec::with_capacity(size);
        let mut i: usize = 0;
        while i < size
            invariant
                0 <= i <= size,
                data@.len() == i,
                forall|j: int| 0 <= j < i ==> data@[j] == 0u8,
            decreases size - i,
        {
            data.push(0);
            i = i + 1;
        }
        Chunk { data, pos: 0 }
    }
}

} // verus!
