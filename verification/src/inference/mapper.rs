//! Sequential reading of a checkpoint that lies in memory.

use vstd::prelude::*;
use vstd::slice::*;

verus! {

/// A stretch of bytes in a checkpoint.
#[derive(Debug, Clone, Copy, PartialEq, Eq, Structural)]
pub struct Span {
    pub offset: usize,
    pub len: usize,
}

/// A read went past the end of the checkpoint.
#[derive(Debug, Clone, Copy, PartialEq, Eq, Structural)]
pub struct EndOfData {
    /// How many bytes were left.
    pub available: usize,
}

/// What a mapper holds: the whole checkpoint, and how far it has been read.
pub struct MapperState {
    pub data: Seq<u8>,
    pub offset: nat,
}

impl MapperState {
    /// The bytes that are still to be read.
    pub open spec fn rest(self) -> Seq<u8> {
        self.data.skip(self.offset as int)
    }

    /// The same checkpoint, `count` bytes further on.
    pub open spec fn advanced(self, count: nat) -> MapperState {
        MapperState { data: self.data, offset: self.offset + count }
    }
}

/// Hands out the bytes of a checkpoint one stretch after the other.
pub struct MemoryMapper<'a> {
    data: &'a [u8],
    offset: usize,
}

impl<'a> View for MemoryMapper<'a> {
    type V = MapperState;

    closed spec fn view(&self) -> MapperState {
        MapperState { data: self.data@, offset: self.offset as nat }
    }
}

impl<'a> MemoryMapper<'a> {
    #[verifier::type_invariant]
    spec fn within(self) -> bool {
        self.offset <= self.data@.len()
    }

    /// Starts at the first byte.
    pub fn new(data: &'a [u8]) -> (mapper: Self)
        ensures
            mapper@ == (MapperState { data: data@, offset: 0 }),
            data@.len() <= usize::MAX,
    {
        assert(data.len() == data@.len());
        MemoryMapper { data, offset: 0 }
    }

    /// How many bytes are still to be read.
    pub fn available(&self) -> (count: usize)
        ensures
            count == self@.data.len() - self@.offset,
            self@.data.len() <= usize::MAX,
            self@.offset <= self@.data.len(),
    {
        proof {
            use_type_invariant(self);
        }
        self.data.len() - self.offset
    }

    /// How many bytes have been read.
    pub fn position(&self) -> (offset: usize)
        ensures
            offset == self@.offset,
            self@.offset <= self@.data.len() <= usize::MAX,
    {
        proof {
            use_type_invariant(self);
        }
        assert(self.data.len() == self.data@.len());
        self.offset
    }

    /// The whole checkpoint.
    pub fn data(&self) -> (data: &'a [u8])
        ensures
            data@ == self@.data,
            self@.offset <= self@.data.len() <= usize::MAX,
    {
        proof {
            use_type_invariant(self);
        }
        assert(self.data.len() == self.data@.len());
        self.data
    }

    /// The next `count` bytes.
    pub fn get_bytes(&mut self, count: usize) -> (result: Result<&'a [u8], EndOfData>)
        ensures
            old(self)@.offset <= old(self)@.data.len() <= usize::MAX,
            match result {
                Ok(bytes) => {
                    &&& count <= old(self)@.rest().len()
                    &&& bytes@ == old(self)@.rest().take(count as int)
                    &&& final(self)@ == old(self)@.advanced(count as nat)
                },
                Err(end) => {
                    &&& count > old(self)@.rest().len()
                    &&& end.available == old(self)@.rest().len()
                    &&& final(self)@ == old(self)@
                },
            },
    {
        let available: usize = self.available();
        if count > available {
            return Err(EndOfData { available });
        }
        let start: usize = self.position();
        self.offset = start + count;
        let bytes: &'a [u8] = slice_subrange(self.data, start, start + count);
        assert(bytes@ =~= old(self)@.rest().take(count as int));
        Ok(bytes)
    }

    /// Where the next `count` bytes lie.
    pub fn get_span(&mut self, count: usize) -> (result: Result<Span, EndOfData>)
        ensures
            old(self)@.offset <= old(self)@.data.len() <= usize::MAX,
            match result {
                Ok(span) => {
                    &&& count <= old(self)@.rest().len()
                    &&& span.offset == old(self)@.offset
                    &&& span.len == count
                    &&& final(self)@ == old(self)@.advanced(count as nat)
                },
                Err(end) => {
                    &&& count > old(self)@.rest().len()
                    &&& end.available == old(self)@.rest().len()
                    &&& final(self)@ == old(self)@
                },
            },
    {
        let start: usize = self.position();
        match self.get_bytes(count) {
            Ok(_) => Ok(Span { offset: start, len: count }),
            Err(end) => Err(end),
        }
    }

    /// Passes over the next `count` bytes.
    pub fn skip(&mut self, count: usize) -> (result: Result<(), EndOfData>)
        ensures
            match result {
                Ok(_) => {
                    &&& count <= old(self)@.rest().len()
                    &&& final(self)@ == old(self)@.advanced(count as nat)
                },
                Err(end) => {
                    &&& count > old(self)@.rest().len()
                    &&& end.available == old(self)@.rest().len()
                    &&& final(self)@ == old(self)@
                },
            },
    {
        match self.get_bytes(count) {
            Ok(_) => Ok(()),
            Err(end) => Err(end),
        }
    }
}

/// Two reads one after the other give the bytes that one read of both lengths gives, and after them
/// as many bytes fewer are left. Nothing of the checkpoint changes.
pub proof fn law_reads_follow_each_other(state: MapperState, first: nat, second: nat)
    requires
        state.offset + first + second <= state.data.len(),
    ensures
        state.rest().take(first as int) + state.advanced(first).rest().take(second as int) == state.rest().take(
            (first + second) as int,
        ),
        state.advanced(first).advanced(second) == state.advanced(first + second),
        state.advanced(first).rest().len() == state.rest().len() - first,
        state.rest().len() == state.data.len() - state.offset,
        forall|k: int| 0 <= k < state.rest().len() ==> #[trigger] state.rest()[k] == state.data[state.offset + k],
        state.advanced(first).data == state.data,
{
    assert(state.rest().take(first as int) + state.advanced(first).rest().take(second as int) =~= state.rest().take(
        (first + second) as int,
    ));
}

} // verus!
