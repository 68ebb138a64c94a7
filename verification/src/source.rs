//! The byte source and the record of the reads made on it. The record grows
//! by one entry with every read and in no other way: nothing outside this
//! file can write it.

use std::io::Read;
use vstd::prelude::*;

verus! {

/// `std::io::Error`, carried through unopened.
#[verifier::external_type_specification]
#[verifier::external_body]
pub struct ExIoError(std::io::Error);

/// One read on a buffer of one byte: what the read returned, and the byte
/// that the buffer held afterwards.
pub type RawRead = (Result<usize, std::io::Error>, u8);

/// A byte source together with the record of the reads made on it.
pub struct Source<T> {
    stream: T,
    log: Ghost<Seq<RawRead>>,
}

impl<T: Read> Source<T> {
    /// The reads made on the source so far, oldest first.
    pub closed spec fn raw(&self) -> Seq<RawRead> {
        self.log@
    }

    /// The byte source itself.
    pub closed spec fn stream(&self) -> T {
        self.stream
    }

    /// Takes ownership of a byte source. No read is made, and none is on
    /// record.
    pub fn new(stream: T) -> (s: Source<T>)
        ensures
            s.stream() == stream,
            s.raw() == Seq::<RawRead>::empty(),
    {
        Source { stream, log: Ghost(Seq::empty()) }
    }

    /// `std::io::Read::read` on a buffer of one byte. Nothing is claimed of
    /// what the read returns or of what it leaves in the buffer; the one claim
    /// is that the call is put on record, with both.
    #[verifier::external_body]
    pub(crate) fn read_one(&mut self, buf: &mut [u8; 1]) -> (r: Result<usize, std::io::Error>)
        ensures
            final(self).raw() == old(self).raw().push((r, final(buf)[0])),
    {
        self.stream.read(buf)
    }
}

} // verus!
