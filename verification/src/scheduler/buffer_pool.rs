//! A bounded pool of chunk buffers: at most `max_buffers` buffers are out at once,
//! and the buffers handed back are kept, emptied, for reuse. Waiting for a free
//! slot is the caller's: `try_acquire` says when none is free.
use vstd::prelude::*;

verus! {

/// `b` resized to `len` bytes: cut, or extended with zero bytes.
pub open spec fn sized(b: Seq<u8>, len: nat) -> Seq<u8> {
    if len <= b.len() {
        b.take(len as int)
    } else {
        b + Seq::new((len - b.len()) as nat, |i: int| 0u8)
    }
}

/// A buffer taken from a pool.
pub struct PooledBuffer {
    buffer: Vec<u8>,
}

impl PooledBuffer {
    /// The bytes in the buffer.
    pub closed spec fn bytes(&self) -> Seq<u8> {
        self.buffer@
    }

    /// Sizes the buffer to exactly `len` bytes, new bytes being zero, and returns
    /// them to write into.
    pub fn get_mut_slice(&mut self, len: usize) -> (s: &mut [u8])
        ensures
            s@ == sized(old(self).bytes(), len as nat),
            final(self).bytes() == final(s)@,
    {
        let ghost before = self.buffer@;
        if self.buffer.len() < len {
            while self.buffer.len() < len
                invariant
                    before.len() <= self.buffer@.len() <= len,
                    self.buffer@ == before + Seq::new(
                        (self.buffer@.len() - before.len()) as nat,
                        |i: int| 0u8,
                    ),
                decreases len - self.buffer@.len(),
            {
                self.buffer.push(0);
                proof {
                    assert(self.buffer@ =~= before + Seq::new(
                        (self.buffer@.len() - before.len()) as nat,
                        |i: int| 0u8,
                    ));
                }
            }
        } else {
            self.buffer.truncate(len);
            proof {
                assert(self.buffer@ =~= before.take(len as int));
            }
        }
        self.buffer.as_mut_slice()
    }

    /// The bytes of the buffer, to write into.
    pub fn as_mut_slice(&mut self) -> (s: &mut [u8])
        ensures
            s@ == old(self).bytes(),
            final(self).bytes() == final(s)@,
    {
        self.buffer.as_mut_slice()
    }

    /// The bytes of the buffer.
    pub fn as_slice(&self) -> (s: &[u8])
        ensures
            s@ == self.bytes(),
    {
        self.buffer.as_slice()
    }
}

/// A pool lending at most `max_buffers` buffers of `chunk_size` bytes of capacity
/// at a time.
pub struct BufferPool {
    chunk_size: usize,
    max_buffers: usize,
    in_use: usize,
    idle: Vec<Vec<u8>>,
}

impl BufferPool {
    /// The chunk size, the bound, the buffers out, and the idle buffers kept.
    pub closed spec fn state(&self) -> (usize, usize, usize, nat) {
        (self.chunk_size, self.max_buffers, self.in_use, self.idle@.len())
    }

    /// Free slots and buffers out add up to the bound; the idle buffers, all
    /// empty, are no more than the free slots.
    #[verifier::type_invariant]
    closed spec fn inv(&self) -> bool {
        &&& self.in_use <= self.max_buffers
        &&& self.idle@.len() + self.in_use <= self.max_buffers
        &&& forall|i: int| 0 <= i < self.idle@.len() ==> (#[trigger] self.idle@[i])@.len() == 0
    }

    /// A pool of `max_buffers` buffers, all allocated up front and idle.
    pub fn new(max_buffers: usize, chunk_size: usize) -> (p: Self)
        ensures
            p.state() == (chunk_size, max_buffers, 0usize, max_buffers as nat),
    {
        let mut idle: Vec<Vec<u8>> = Vec::new();
        let mut k: usize = 0;
        while k < max_buffers
            invariant
                k <= max_buffers,
                idle@.len() == k,
                forall|i: int| 0 <= i < idle@.len() ==> (#[trigger] idle@[i])@.len() == 0,
            decreases max_buffers - k,
        {
            let b: Vec<u8> = Vec::with_capacity(chunk_size);
            idle.push(b);
            k = k + 1;
        }
        BufferPool { chunk_size, max_buffers, in_use: 0, idle }
    }

    /// Takes a free slot and an empty buffer for it (an idle one when there is
    /// one, else a new one); none when every slot is taken.
    pub fn try_acquire(&mut self) -> (b: Option<PooledBuffer>)
        ensures
            old(self).state().2 < old(self).state().1 ==> (b matches Some(pb) && pb.bytes().len()
                == 0),
            old(self).state().2 < old(self).state().1 ==> final(self).state() == (
                old(self).state().0,
                old(self).state().1,
                (old(self).state().2 + 1) as usize,
                if old(self).state().3 > 0 {
                    (old(self).state().3 - 1) as nat
                } else {
                    0
                },
            ),
            old(self).state().2 >= old(self).state().1 ==> b is None && final(self).state() == old(
                self,
            ).state(),
    {
        proof {
            use_type_invariant(&*self);
        }
        if self.in_use >= self.max_buffers {
            return None;
        }
        let mut idle: Vec<Vec<u8>> = Vec::new();
        std::mem::swap(&mut idle, &mut self.idle);
        let ghost before = idle@;
        let buffer = match idle.pop() {
            Some(b) => b,
            None => Vec::with_capacity(self.chunk_size),
        };
        proof {
            if before.len() > 0 {
                assert(buffer@ == before[before.len() - 1]@);
                assert forall|i: int| 0 <= i < idle@.len() implies (#[trigger] idle@[i])@.len() == 0 by {
                    assert(idle@[i] == before[i]);
                }
            }
        }
        self.in_use = self.in_use + 1;
        self.idle = idle;
        Some(PooledBuffer { buffer })
    }

    /// Takes back a buffer that was out: it is emptied and kept for reuse, and its
    /// slot is free again.
    pub fn release(&mut self, b: PooledBuffer)
        requires
            old(self).state().2 > 0,
        ensures
            final(self).state() == (
                old(self).state().0,
                old(self).state().1,
                (old(self).state().2 - 1) as usize,
                old(self).state().3 + 1,
            ),
    {
        proof {
            use_type_invariant(&*self);
        }
        let mut buffer = b.buffer;
        buffer.clear();
        self.in_use = self.in_use - 1;
        let mut idle: Vec<Vec<u8>> = Vec::new();
        std::mem::swap(&mut idle, &mut self.idle);
        let ghost before = idle@;
        idle.push(buffer);
        proof {
            assert forall|i: int| 0 <= i < idle@.len() implies (#[trigger] idle@[i])@.len() == 0 by {
                if i < before.len() {
                    assert(idle@[i] == before[i]);
                }
            }
        }
        self.idle = idle;
    }

    /// Turns a buffer that was out into its bytes, which leave the pool for good;
    /// its slot is free again.
    pub fn freeze(&mut self, b: PooledBuffer) -> (bytes: Vec<u8>)
        requires
            old(self).state().2 > 0,
        ensures
            bytes@ == b.bytes(),
            final(self).state() == (
                old(self).state().0,
                old(self).state().1,
                (old(self).state().2 - 1) as usize,
                old(self).state().3,
            ),
    {
        proof {
            use_type_invariant(&*self);
        }
        self.in_use = self.in_use - 1;
        b.buffer
    }

    /// The configured chunk size.
    pub fn chunk_size(&self) -> (n: usize)
        ensures
            n == self.state().0,
    {
        self.chunk_size
    }

    /// The number of free slots.
    pub fn available_slots(&self) -> (n: usize)
        ensures
            n == self.state().1 - self.state().2,
    {
        proof {
            use_type_invariant(self);
        }
        self.max_buffers - self.in_use
    }

    /// The number of emptied buffers kept for reuse, never more than the free slots.
    pub fn idle_count(&self) -> (n: usize)
        ensures
            n == self.state().3,
            n <= self.state().1 - self.state().2,
    {
        proof {
            use_type_invariant(self);
        }
        self.idle.len()
    }
}

} // verus!
