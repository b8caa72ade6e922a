//! The chunk-size partition used by the upload pipeline: a file is split
//! into ten near-equal byte ranges plus a remainder range, covering the whole
//! file exactly once, in order.

use vstd::prelude::*;

verus! {

/// The partition of a file of `file_size` bytes: ten chunks of a tenth of
/// the size each, followed by one remainder chunk when the size is not a
/// multiple of ten.
pub open spec fn chunk_partition(file_size: u64) -> Seq<int> {
    let tenth = file_size as int / 10;
    let remainder = file_size as int % 10;
    if remainder > 0 {
        Seq::new(10, |i: int| tenth).push(remainder)
    } else {
        Seq::new(10, |i: int| tenth)
    }
}

/// The total size of a sequence of chunk sizes.
pub open spec fn sum_of(s: Seq<int>) -> int
    decreases s.len(),
{
    if s.len() == 0 {
        0
    } else {
        s[0] + sum_of(s.skip(1))
    }
}

/// Holds a file's size and the chunk sizes computed from it. Opening the
/// file and reading its length belong to the caller; this type only carries
/// the partition arithmetic.
pub struct FileHandler {
    file_size: u64,
    chunks: Vec<usize>,
}

impl FileHandler {
    /// The stored file size.
    pub closed spec fn spec_file_size(self) -> u64 {
        self.file_size
    }

    /// The computed chunk sizes, in order.
    pub closed spec fn chunk_views(self) -> Seq<usize> {
        self.chunks@
    }

    /// Stores the file size; the chunk list stays empty until processed.
    pub fn new(file_size: u64) -> (res: Self)
        ensures
            res.spec_file_size() == file_size,
            res.chunk_views() == Seq::<usize>::empty(),
    {
        FileHandler { file_size, chunks: Vec::new() }
    }

    /// Computes the chunk partition of the stored size. The bound keeps a
    /// tenth of the size representable as a machine word.
    pub fn process_chunks(&mut self)
        requires
            old(self).spec_file_size() as int / 10 <= usize::MAX as int,
        ensures
            final(self).spec_file_size() == old(self).spec_file_size(),
            final(self).chunk_views().map_values(|c: usize| c as int) == chunk_partition(
                old(self).spec_file_size(),
            ),
    {
        self.populate_chunk();
    }

    /// Ten chunks of a tenth of the size; the remainder, when any, becomes
    /// one more chunk.
    fn populate_chunk(&mut self)
        requires
            old(self).file_size as int / 10 <= usize::MAX as int,
        ensures
            final(self).file_size == old(self).file_size,
            final(self).chunks@.map_values(|c: usize| c as int) == chunk_partition(
                old(self).file_size,
            ),
    {
        let chunk_size: usize = (self.file_size / 10) as usize;
        let remainder_byte: usize = (self.file_size % 10) as usize;
        let mut chunks: Vec<usize> = vec![chunk_size; 10];
        if remainder_byte > 0 {
            chunks.push(remainder_byte);
        }
        self.chunks = chunks;
        proof {
            assert(self.chunks@.map_values(|c: usize| c as int) =~= chunk_partition(
                self.file_size,
            ));
        }
    }

    /// The computed chunk sizes, in order.
    pub fn get_chunk(&self) -> (r: &Vec<usize>)
        ensures
            r@ == self.chunk_views(),
    {
        &self.chunks
    }
}

} // verus!
