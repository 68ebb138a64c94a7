//! Decoding one byte at a time, with no byte source in sight: a step takes
//! what the last read returned and says whether the character is finished.

use vstd::prelude::*;
use crate::scalar::{scalar_or_replacement, tochar, BADCHAR};
use crate::sequence::{
    code_point, continuation_payload, is_continuation, lead_payload, sequence_length, unfinished,
};

verus! {

/// A multi-byte sequence that has begun and lacks continuation bytes.
#[derive(Clone, Copy, Debug, PartialEq, Eq)]
pub struct Pending {
    missing: u8,
    value: u32,
}

/// Where the decoding of one character stands after a read.
#[derive(Clone, Copy, Debug, PartialEq, Eq)]
pub enum Step {
    /// Another byte has to be read.
    More(Pending),
    /// The character is finished, or the source ended before it began.
    Done(Option<char>),
}

impl Pending {
    /// One to three bytes are missing, and the bits gathered leave room for
    /// six more per missing byte within 21 bits.
    #[verifier::type_invariant]
    spec fn inv(self) -> bool {
        &&& 1 <= self.missing <= 3
        &&& self.missing == 1 ==> self.value < 0x8000
        &&& self.missing == 2 ==> self.value < 0x200
        &&& self.missing == 3 ==> self.value < 0x8
    }

    /// How many continuation bytes are still to come.
    pub closed spec fn spec_missing(self) -> u8 {
        self.missing
    }

    /// The payload bits gathered so far.
    pub closed spec fn spec_value(self) -> u32 {
        self.value
    }

    /// `self` is the state reached after the bytes `bytes`.
    pub open spec fn tracks(self, bytes: Seq<u8>) -> bool {
        &&& unfinished(bytes)
        &&& self.missing() == sequence_length(bytes[0]) - bytes.len()
        &&& self.value() == code_point(bytes)
    }

    /// How many continuation bytes are still to come.
    #[verifier::when_used_as_spec(spec_missing)]
    pub fn missing(self) -> (n: u8)
        ensures
            n == self.missing(),
            1 <= n <= 3,
    {
        proof {
            use_type_invariant(&self);
        }
        self.missing
    }

    /// The payload bits gathered so far.
    #[verifier::when_used_as_spec(spec_value)]
    pub fn value(self) -> (v: u32)
        ensures
            v == self.value(),
    {
        self.value
    }
}

/// What the first read of a character leads to.
pub open spec fn start_spec(first: Option<u8>, s: Step) -> bool {
    match first {
        None => s == Step::Done(None),
        Some(b) => if sequence_length(b) == 0 {
            s == Step::Done(Some(BADCHAR))
        } else if sequence_length(b) == 1 {
            s == Step::Done(Some(b as char))
        } else {
            &&& s matches Step::More(p)
            &&& p.missing() == sequence_length(b) - 1
            &&& p.value() == lead_payload(b)
        },
    }
}

/// What a read after the first leads to, from the state `p`.
pub open spec fn resume_spec(p: Pending, next: Option<u8>, s: Step) -> bool {
    match next {
        None => s == Step::Done(Some(BADCHAR)),
        Some(b) => if !is_continuation(b) {
            s == Step::Done(Some(BADCHAR))
        } else if p.missing() == 1 {
            s == Step::Done(
                Some(scalar_or_replacement(p.value() * 64 + continuation_payload(b))),
            )
        } else {
            &&& s matches Step::More(q)
            &&& q.missing() == p.missing() - 1
            &&& q.value() == p.value() * 64 + continuation_payload(b)
        },
    }
}

proof fn lemma_lead_bits(b: u8)
    by (bit_vector)
    ensures
        b & 0x80 == 0x00 <==> b <= 0x7F,
        b & 0xC0 == 0x80 <==> 0x80 <= b <= 0xBF,
        b & 0xE0 == 0xC0 <==> 0xC0 <= b <= 0xDF,
        b & 0xF0 == 0xE0 <==> 0xE0 <= b <= 0xEF,
        b & 0xF8 == 0xF0 <==> 0xF0 <= b <= 0xF7,
        0xC0 <= b <= 0xDF ==> b & 0x1F == b - 0xC0,
        0xE0 <= b <= 0xEF ==> b & 0x0F == b - 0xE0,
        0xF0 <= b <= 0xF7 ==> b & 0x07 == b - 0xF0,
        0x80 <= b <= 0xBF ==> b & 0x3F == b - 0x80,
{
}

proof fn lemma_append_bits(v: u32, low: u32)
    by (bit_vector)
    requires
        v < 0x8000,
        low < 0x40,
    ensures
        (v << 6) | low == v * 64 + low,
{
}

/// Takes the first read of a character: `None` for the end of the source,
/// else the lead byte. A single byte gives its character at once; a byte that
/// cannot begin a sequence gives U+FFFD; a lead byte of a longer sequence
/// gives the state that waits for its continuation bytes.
pub fn start(first: Option<u8>) -> (s: Step)
    ensures
        start_spec(first, s),
{
    match first {
        None => Step::Done(None),
        Some(b) => {
            proof {
                lemma_lead_bits(b);
            }
            if b & 0x80 == 0x00 {
                Step::Done(Some(tochar(b as u32)))
            } else if b & 0xC0 == 0x80 {
                Step::Done(Some(BADCHAR))
            } else if b & 0xE0 == 0xC0 {
                Step::More(Pending { missing: 1, value: (b & 0x1F) as u32 })
            } else if b & 0xF0 == 0xE0 {
                Step::More(Pending { missing: 2, value: (b & 0x0F) as u32 })
            } else if b & 0xF8 == 0xF0 {
                Step::More(Pending { missing: 3, value: (b & 0x07) as u32 })
            } else {
                Step::Done(Some(BADCHAR))
            }
        },
    }
}

/// Takes a read after the first: `None` for the end of the source, else the
/// byte. The end of the source, or a byte that is no continuation byte, ends
/// the character with U+FFFD, and the byte is spent. A continuation byte adds
/// its six bits; the last one finishes the character.
pub fn resume(p: Pending, next: Option<u8>) -> (s: Step)
    ensures
        resume_spec(p, next, s),
{
    proof {
        use_type_invariant(&p);
    }
    match next {
        None => Step::Done(Some(BADCHAR)),
        Some(b) => {
            proof {
                lemma_lead_bits(b);
            }
            if b & 0xC0 != 0x80 {
                Step::Done(Some(BADCHAR))
            } else {
                let low: u32 = (b & 0x3F) as u32;
                proof {
                    lemma_append_bits(p.value, low);
                }
                let value: u32 = (p.value << 6) | low;
                if p.missing == 1 {
                    Step::Done(Some(tochar(value)))
                } else {
                    Step::More(Pending { missing: p.missing - 1, value })
                }
            }
        },
    }
}

} // verus!
