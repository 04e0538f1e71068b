//! A memory together with the looks that were taken at it.
//!
//! Where a memory may change at any time, what was read is told by when it was read. The
//! looks are a list that only a read can add to, so a contract that names the looks
//! says how often, where and in which order the memory was read, and what was seen.

use crate::error::Error;
use crate::float::Double;
use crate::memory;
use crate::memory::Memory;
use vstd::arithmetic::power::*;
use vstd::prelude::*;

verus! {

/// One look at a memory.
#[verifier::ext_equal]
pub struct Look {
    pub offset: int,
    pub bytes: Seq<u8>,
}

/// The look that sees a number of `n` bytes.
pub open spec fn number_look(offset: int, value: int, n: nat) -> Look {
    Look { offset, bytes: memory::native_bytes(memory::unsigned(value, n), n) }
}

/// A memory and the looks that were taken at it, from the first to the last.
pub struct Watched<'a, M: Memory + ?Sized> {
    memory: &'a M,
    looks: Ghost<Seq<Look>>,
}

impl<'a, M: Memory + ?Sized> Watched<'a, M> {
    /// The memory.
    pub closed spec fn memory(&self) -> &'a M {
        self.memory
    }

    /// The looks that were taken at it.
    pub closed spec fn looks(&self) -> Seq<Look> {
        self.looks@
    }

    /// Whether `later` is this memory after these further looks.
    pub open spec fn goes_on(&self, later: &Self, looks: Seq<Look>) -> bool {
        later.memory() == self.memory() && later.looks() == self.looks() + looks
    }

    /// A memory at which no look was taken yet.
    pub fn new(memory: &'a M) -> (watched: Self)
        ensures
            watched.memory() == memory,
            watched.looks() == Seq::<Look>::empty(),
    {
        Watched { memory, looks: Ghost(Seq::empty()) }
    }

    /// Takes one look, or reports that not all of it is inside the memory.
    pub fn read_bytes(&mut self, offset: usize, length: usize) -> (read: Result<Vec<u8>, Error>)
        ensures
            match read {
                Ok(bytes) => {
                    &&& offset + length <= old(self).memory().size()
                    &&& memory::holds_text(
                        old(self).memory(),
                        offset as int,
                        bytes@,
                        length as nat,
                    )
                    &&& old(self).goes_on(
                        final(self),
                        seq![Look { offset: offset as int, bytes: bytes@ }],
                    )
                },
                Err(error) => {
                    &&& offset + length > old(self).memory().size()
                    &&& error@ == memory::out_of_bounds(
                        old(self).memory(),
                        offset as int,
                        length as int,
                    )
                    &&& old(self).goes_on(final(self), seq![])
                },
            },
    {
        let read: Result<Vec<u8>, Error> = memory::read_bytes(self.memory, offset, length);
        proof {
            assert(self.looks@ + Seq::<Look>::empty() =~= self.looks@);
        }
        match read {
            Ok(bytes) => {
                self.looks = Ghost(
                    self.looks@ + seq![Look { offset: offset as int, bytes: bytes@ }],
                );
                Ok(bytes)
            },
            Err(error) => Err(error),
        }
    }

    /// Reads an unsigned number of `n` bytes in one look.
    fn read_number(&mut self, offset: usize, n: usize) -> (read: Result<u64, Error>)
        requires
            n <= 8,
        ensures
            match read {
                Ok(value) => {
                    &&& offset + n <= old(self).memory().size()
                    &&& value < pow(256, n as nat)
                    &&& memory::holds(old(self).memory(), offset as int, value as int, n as nat)
                    &&& old(self).goes_on(
                        final(self),
                        seq![number_look(offset as int, value as int, n as nat)],
                    )
                },
                Err(error) => {
                    &&& offset + n > old(self).memory().size()
                    &&& error@ == memory::out_of_bounds(
                        old(self).memory(),
                        offset as int,
                        n as int,
                    )
                    &&& old(self).goes_on(final(self), seq![])
                },
            },
    {
        let bytes: Vec<u8> = self.read_bytes(offset, n)?;
        Ok(memory::number_of(&bytes))
    }

    /// Reads a `u8` in one look.
    pub fn read_u8(&mut self, offset: usize) -> (read: Result<u8, Error>)
        ensures
            match read {
                Ok(value) => {
                    &&& offset + 1 <= old(self).memory().size()
                    &&& memory::holds(old(self).memory(), offset as int, value as int, 1)
                    &&& old(self).goes_on(
                        final(self),
                        seq![number_look(offset as int, value as int, 1)],
                    )
                },
                Err(error) => {
                    &&& offset + 1 > old(self).memory().size()
                    &&& error@ == memory::out_of_bounds(old(self).memory(), offset as int, 1)
                    &&& old(self).goes_on(final(self), seq![])
                },
            },
    {
        let value: u64 = self.read_number(offset, 1)?;
        proof {
            memory::lemma_powers();
        }
        Ok(value as u8)
    }

    /// Reads a `u32` in one look.
    pub fn read_u32(&mut self, offset: usize) -> (read: Result<u32, Error>)
        ensures
            match read {
                Ok(value) => {
                    &&& offset + 4 <= old(self).memory().size()
                    &&& memory::holds(old(self).memory(), offset as int, value as int, 4)
                    &&& old(self).goes_on(
                        final(self),
                        seq![number_look(offset as int, value as int, 4)],
                    )
                },
                Err(error) => {
                    &&& offset + 4 > old(self).memory().size()
                    &&& error@ == memory::out_of_bounds(old(self).memory(), offset as int, 4)
                    &&& old(self).goes_on(final(self), seq![])
                },
            },
    {
        let value: u64 = self.read_number(offset, 4)?;
        proof {
            memory::lemma_powers();
        }
        Ok(value as u32)
    }

    /// Reads a `u64` in one look.
    pub fn read_u64(&mut self, offset: usize) -> (read: Result<u64, Error>)
        ensures
            match read {
                Ok(value) => {
                    &&& offset + 8 <= old(self).memory().size()
                    &&& memory::holds(old(self).memory(), offset as int, value as int, 8)
                    &&& old(self).goes_on(
                        final(self),
                        seq![number_look(offset as int, value as int, 8)],
                    )
                },
                Err(error) => {
                    &&& offset + 8 > old(self).memory().size()
                    &&& error@ == memory::out_of_bounds(old(self).memory(), offset as int, 8)
                    &&& old(self).goes_on(final(self), seq![])
                },
            },
    {
        self.read_number(offset, 8)
    }

    /// Reads a double in one look.
    pub fn read_double(&mut self, offset: usize) -> (read: Result<Double, Error>)
        ensures
            match read {
                Ok(value) => {
                    &&& offset + 8 <= old(self).memory().size()
                    &&& memory::holds(old(self).memory(), offset as int, value.bits as int, 8)
                    &&& old(self).goes_on(
                        final(self),
                        seq![number_look(offset as int, value.bits as int, 8)],
                    )
                },
                Err(error) => {
                    &&& offset + 8 > old(self).memory().size()
                    &&& error@ == memory::out_of_bounds(old(self).memory(), offset as int, 8)
                    &&& old(self).goes_on(final(self), seq![])
                },
            },
    {
        let value: u64 = self.read_number(offset, 8)?;
        Ok(Double::from_bits(value))
    }
}

} // verus!
