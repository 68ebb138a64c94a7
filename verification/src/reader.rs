//! The reader: it pulls single bytes from a `std::io::Read` and hands out
//! characters, one call at a time. What a call returns is stated over the
//! record of the reads made on the source.

use std::io::Read;
use vstd::prelude::*;
use crate::decoder::{resume, resume_spec, start, start_spec, Pending, Step};
use crate::scalar::BADCHAR;
use crate::sequence::{decoded, is_continuation, unfinished};
use crate::source::{RawRead, Source};

verus! {

/// What one single-byte read returned: a byte, the end of the source, or the
/// source's failure.
pub type ReadResult = Result<Option<u8>, std::io::Error>;

/// What one call for a character returns: a character, the end of the
/// source, or the source's failure.
pub type CharResult = Result<Option<char>, std::io::Error>;

/// What a read on a buffer of one byte means: a read of no bytes is the end
/// of the source, a read of any bytes gives the byte in the buffer, and a
/// failure stays that failure.
pub open spec fn byte_of(raw: RawRead) -> ReadResult {
    match raw.0 {
        Ok(n) => if n == 0 {
            Ok(None)
        } else {
            Ok(Some(raw.1))
        },
        Err(e) => Err(e),
    }
}

/// Turns what a read on a buffer of one byte returned, and the buffer as the
/// read left it, into a byte, the end of the source, or the failure.
pub fn to_byte(n: Result<usize, std::io::Error>, buf: [u8; 1]) -> (r: ReadResult)
    ensures
        r == byte_of((n, buf[0])),
{
    match n {
        Ok(n) => if n == 0 {
            Ok(None)
        } else {
            Ok(Some(buf[0]))
        },
        Err(e) => Err(e),
    }
}

/// The reads that return the bytes of `bytes`, one after the other.
pub open spec fn reads_of(bytes: Seq<u8>) -> Seq<ReadResult> {
    Seq::new(bytes.len(), |i: int| Ok(Some(bytes[i])))
}

/// Whether every read of `reads` returned a byte.
pub open spec fn all_bytes(reads: Seq<ReadResult>) -> bool {
    forall|i: int| 0 <= i < reads.len() ==> (#[trigger] reads[i]) matches Ok(Some(_))
}

/// The bytes that the reads of `reads` returned.
pub open spec fn bytes_of(reads: Seq<ReadResult>) -> Seq<u8>
    recommends
        all_bytes(reads),
{
    Seq::new(
        reads.len(),
        |i: int|
            match reads[i] {
                Ok(Some(b)) => b,
                _ => 0u8,
            },
    )
}

/// What a call for a character returns when its reads returned `reads`, in
/// this order, and the last of them was its last: `None` where a call that saw
/// these reads would not have stopped there, or would have stopped before.
///
/// A call reads on while the bytes it has form an unfinished sequence. A
/// failure is handed on as it is. The end of the source gives the end where
/// no byte was read, and U+FFFD after a lead byte. The byte that ends the
/// call gives the character that the bytes decode to.
pub open spec fn outcome(reads: Seq<ReadResult>) -> Option<CharResult> {
    if reads.len() == 0 {
        None
    } else {
        let earlier = reads.drop_last();
        let taken = bytes_of(earlier);
        if !all_bytes(earlier) || (taken.len() > 0 && !unfinished(taken)) {
            None
        } else {
            match reads.last() {
                Err(e) => Some(Err(e)),
                Ok(None) => if taken.len() == 0 {
                    Some(Ok(None))
                } else {
                    Some(Ok(Some(BADCHAR)))
                },
                Ok(Some(b)) => if unfinished(taken.push(b)) {
                    None
                } else {
                    Some(Ok(Some(decoded(taken.push(b)))))
                },
            }
        }
    }
}

/// What the lazy sequence yields for a call's result: the end of the source
/// ends the sequence, a character or a failure is an element of it.
pub open spec fn item_of(r: CharResult) -> Option<Result<char, std::io::Error>> {
    match r {
        Ok(None) => None,
        Ok(Some(c)) => Some(Ok(c)),
        Err(e) => Some(Err(e)),
    }
}

/// Reads that returned bytes keep doing so when one more byte is read, and
/// hold the bytes they were made from.
proof fn lemma_reads_of(bytes: Seq<u8>)
    ensures
        all_bytes(reads_of(bytes)),
        bytes_of(reads_of(bytes)) == bytes,
        forall|b: u8| #[trigger] reads_of(bytes).push(Ok(Some(b))) == reads_of(bytes.push(b)),
        forall|r: ReadResult| #[trigger] reads_of(bytes).push(r).drop_last() == reads_of(bytes),
{
    assert(bytes_of(reads_of(bytes)) =~= bytes);
    assert forall|b: u8| #[trigger] reads_of(bytes).push(Ok(Some(b))) == reads_of(
        bytes.push(b),
    ) by {
        assert(reads_of(bytes).push(Ok(Some(b))) =~= reads_of(bytes.push(b)));
    }
    assert forall|r: ReadResult| #[trigger] reads_of(bytes).push(r).drop_last() == reads_of(
        bytes,
    ) by {
        assert(reads_of(bytes).push(r).drop_last() =~= reads_of(bytes));
    }
}

/// The first step of the decoder agrees with `outcome` on a single read.
proof fn lemma_start(first: Option<u8>, s: Step)
    requires
        start_spec(first, s),
    ensures
        match s {
            Step::Done(c) => outcome(seq![Ok(first)]) == Some::<CharResult>(Ok(c)),
            Step::More(p) => first matches Some(b) && p.tracks(seq![b]),
        },
{
    let reads: Seq<ReadResult> = seq![Ok(first)];
    assert(reads.drop_last() =~= Seq::<ReadResult>::empty());
    assert(bytes_of(reads.drop_last()) =~= Seq::<u8>::empty());
    if let Some(b) = first {
        assert(Seq::<u8>::empty().push(b) =~= seq![b]);
    }
}

/// A later step of the decoder agrees with `outcome` on the reads so far and
/// one more.
proof fn lemma_resume(p: Pending, taken: Seq<u8>, next: Option<u8>, s: Step)
    requires
        p.tracks(taken),
        resume_spec(p, next, s),
    ensures
        match s {
            Step::Done(c) => outcome(reads_of(taken).push(Ok(next))) == Some::<CharResult>(Ok(c)),
            Step::More(q) => next matches Some(b) && q.tracks(taken.push(b)),
        },
{
    lemma_reads_of(taken);
    let reads = reads_of(taken).push(Ok(next));
    assert(reads.drop_last() == reads_of(taken));
    if let Some(b) = next {
        let longer = taken.push(b);
        assert(longer.drop_last() =~= taken);
        assert(longer[0] == taken[0]);
        if is_continuation(b) {
            assert forall|i: int| 1 <= i < longer.len() implies is_continuation(
                #[trigger] longer[i],
            ) by {
                if i < taken.len() {
                    assert(longer[i] == taken[i]);
                }
            }
        } else {
            assert(longer[longer.len() - 1] == b);
        }
    }
}

/// Reads characters from a byte source that holds UTF-8. The source is read
/// one byte at a time, and only as far as the character asked for needs.
pub struct UTF8Reader<T> {
    source: Source<T>,
}

impl<T: Read> UTF8Reader<T> {
    /// The reads that this reader made on its source, oldest first: each with
    /// what it returned and the byte it left in the buffer.
    pub closed spec fn raw(&self) -> Seq<RawRead> {
        self.source.raw()
    }

    /// What the reads that this reader made on its source came to, oldest
    /// first: a byte, the end of the source, or a failure each.
    pub open spec fn reads(&self) -> Seq<ReadResult> {
        self.raw().map_values(|raw: RawRead| byte_of(raw))
    }

    /// The byte source that this reader pulls from.
    pub closed spec fn source(&self) -> T {
        self.source.stream()
    }

    /// Takes ownership of a byte source. No read is made yet.
    pub fn new(reader: T) -> (r: UTF8Reader<T>)
        ensures
            r.source() == reader,
            r.raw() == Seq::<RawRead>::empty(),
            r.reads() == Seq::<ReadResult>::empty(),
    {
        let r = UTF8Reader { source: Source::new(reader) };
        assert(r.reads() =~= Seq::<ReadResult>::empty());
        r
    }

    /// Reads one byte from the source: one read on a buffer of one byte. A
    /// read of no bytes is the end of the source.
    fn getb(&mut self) -> (r: ReadResult)
        ensures
            final(self).raw().len() == old(self).raw().len() + 1,
            final(self).raw().drop_last() == old(self).raw(),
            r == byte_of(final(self).raw().last()),
            final(self).reads() == old(self).reads().push(r),
    {
        let mut b: [u8; 1] = [0];
        let n = self.source.read_one(&mut b);
        let r = to_byte(n, b);
        proof {
            assert(self.raw().drop_last() =~= old(self).raw());
            assert(self.reads() =~= old(self).reads().push(r));
        }
        r
    }

    /// Read a single codepoint from the stream.
    /// On an encoding error, it returns U+FFFD (the unicode replacement character).
    ///
    /// The call makes between one and four reads on the source, each on a
    /// buffer of one byte. What they came to decides the result, as `outcome`
    /// says.
    pub fn getc(&mut self) -> (r: CharResult)
        ensures
            old(self).raw().is_prefix_of(final(self).raw()),
            old(self).reads().is_prefix_of(final(self).reads()),
            1 <= final(self).reads().len() - old(self).reads().len() <= 4,
            outcome(final(self).reads().skip(old(self).reads().len() as int)) == Some(r),
    {
        let ghost before = self.reads();
        let first = match self.getb() {
            Ok(b) => b,
            Err(e) => {
                proof {
                    let made: Seq<ReadResult> = seq![Err(e)];
                    assert(self.reads().skip(before.len() as int) =~= made);
                    assert(made.drop_last() =~= Seq::<ReadResult>::empty());
                    assert(bytes_of(made.drop_last()) =~= Seq::<u8>::empty());
                }
                return Err(e);
            },
        };
        let mut step = start(first);
        let ghost mut taken: Seq<u8> = Seq::empty();
        let ghost mut made: Seq<ReadResult> = seq![Ok(first)];
        proof {
            lemma_start(first, step);
            if let Some(b) = first {
                taken = seq![b];
                assert(made =~= reads_of(taken));
            }
            assert(self.reads() =~= before + made);
        }
        loop
            invariant
                before == old(self).reads(),
                old(self).raw().is_prefix_of(self.raw()),
                self.reads() == before + made,
                1 <= made.len() <= 4,
                step matches Step::More(p) ==> made == reads_of(taken) && p.tracks(taken),
                step matches Step::Done(c) ==> outcome(made) == Some::<CharResult>(Ok(c)),
            decreases
                match step {
                    Step::More(p) => p.missing() + 1,
                    Step::Done(_) => 0,
                },
        {
            match step {
                Step::Done(c) => {
                    proof {
                        assert(self.reads().skip(before.len() as int) =~= made);
                    }
                    return Ok(c);
                },
                Step::More(p) => {
                    let next = match self.getb() {
                        Ok(b) => b,
                        Err(e) => {
                            proof {
                                lemma_reads_of(taken);
                                assert(self.reads().skip(before.len() as int) =~= made.push(
                                    Err(e),
                                ));
                            }
                            return Err(e);
                        },
                    };
                    step = resume(p, next);
                    proof {
                        lemma_resume(p, taken, next, step);
                        lemma_reads_of(taken);
                        made = made.push(Ok(next));
                        if let Some(b) = next {
                            taken = taken.push(b);
                        }
                        assert(self.reads() =~= before + made);
                    }
                },
            }
        }
    }

    /// The next element of the lazy sequence of characters: `None` once the
    /// source has ended, else the character or the failure that `getc`
    /// returned.
    pub fn next(&mut self) -> (r: Option<Result<char, std::io::Error>>)
        ensures
            old(self).raw().is_prefix_of(final(self).raw()),
            old(self).reads().is_prefix_of(final(self).reads()),
            1 <= final(self).reads().len() - old(self).reads().len() <= 4,
            outcome(final(self).reads().skip(old(self).reads().len() as int)) matches Some(c)
                && r == item_of(c),
    {
        match self.getc() {
            Ok(None) => None,
            Ok(Some(c)) => Some(Ok(c)),
            Err(e) => Some(Err(e)),
        }
    }
}

} // verus!
