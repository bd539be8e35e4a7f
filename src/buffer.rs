use vstd::prelude::*;

verus! {

/// The byte a stored byte becomes: one more, wrapping at 256.
pub open spec fn bump(b: u8) -> u8 {
    ((b as int + 1) % 256) as u8
}

/// Why data was refused.
#[derive(Debug, Clone, Copy, PartialEq, Eq)]
pub enum BufferError {
    /// The data is longer than the buffer's capacity.
    ExceedsCapacity,
}

/// A byte buffer with a fixed capacity, transformed in place.
pub struct SharedMemoryBuffer {
    buffer: Vec<u8>,
    capacity: usize,
}

impl SharedMemoryBuffer {
    pub closed spec fn contents(&self) -> Seq<u8> {
        self.buffer@
    }

    pub closed spec fn cap(&self) -> nat {
        self.capacity as nat
    }

    /// An empty buffer that accepts up to `initial_capacity` bytes.
    pub fn new(initial_capacity: usize) -> (r: SharedMemoryBuffer)
        ensures
            r.contents() == Seq::<u8>::empty(),
            r.cap() == initial_capacity,
    {
        SharedMemoryBuffer { buffer: Vec::new(), capacity: initial_capacity }
    }

    /// A copy of the stored bytes.
    pub fn get_buffer(&self) -> (r: Vec<u8>)
        ensures
            r@ == self.contents(),
    {
        let mut out: Vec<u8> = Vec::new();
        let mut i: usize = 0;
        while i < self.buffer.len()
            invariant
                i <= self.buffer@.len(),
                out@ == self.buffer@.subrange(0, i as int),
            decreases self.buffer.len() - i,
        {
            out.push(self.buffer[i]);
            assert(out@ =~= self.buffer@.subrange(0, i + 1));
            i = i + 1;
        }
        assert(out@ =~= self.buffer@);
        out
    }

    /// Replaces the contents with `data`, each byte increased by one (wrapping).
    /// Data longer than the capacity is refused and the contents stay as they were.
    pub fn process_data(&mut self, data: &[u8]) -> (r: Result<(), BufferError>)
        ensures
            final(self).cap() == old(self).cap(),
            data@.len() > old(self).cap() ==> r == Err::<(), BufferError>(BufferError::ExceedsCapacity)
                && final(self).contents() == old(self).contents(),
            data@.len() <= old(self).cap() ==> r is Ok && final(self).contents() == data@.map_values(
                |b: u8| bump(b),
            ),
    {
        if data.len() > self.capacity {
            return Err(BufferError::ExceedsCapacity);
        }
        self.buffer.clear();
        let mut i: usize = 0;
        while i < data.len()
            invariant
                i <= data@.len(),
                self.buffer@ == data@.subrange(0, i as int).map_values(|b: u8| bump(b)),
                self.capacity == old(self).capacity,
            decreases data.len() - i,
        {
            let b: u8 = data[i];
            self.buffer.push(b.wrapping_add(1));
            assert(self.buffer@ =~= data@.subrange(0, i + 1).map_values(|b: u8| bump(b)));
            i = i + 1;
        }
        assert(data@.subrange(0, data@.len() as int) =~= data@);
        Ok(())
    }
}

/// A zero-filled byte array of length `size`.
pub fn create_typed_array(size: usize) -> (r: Vec<u8>)
    ensures
        r@ == Seq::new(size as nat, |i: int| 0u8),
{
    let mut out: Vec<u8> = Vec::new();
    let mut i: usize = 0;
    while i < size
        invariant
            i <= size,
            out@ == Seq::new(i as nat, |j: int| 0u8),
        decreases size - i,
    {
        out.push(0u8);
        assert(out@ =~= Seq::new((i + 1) as nat, |j: int| 0u8));
        i = i + 1;
    }
    out
}

} // verus!
