//! The shape of a UTF-8 sequence: what a lead byte announces, what each
//! continuation byte adds, and the number the bytes assemble to.

use vstd::prelude::*;
use crate::scalar::{scalar_or_replacement, BADCHAR};

verus! {

/// A continuation byte has the bit pattern `10xxxxxx`.
pub open spec fn is_continuation(b: u8) -> bool {
    0x80 <= b <= 0xBF
}

/// The length of the sequence that `lead` announces, or 0 where `lead` cannot
/// begin one: a continuation byte, or five or more leading one bits.
pub open spec fn sequence_length(lead: u8) -> nat {
    if lead <= 0x7F {
        1
    } else if 0xC0 <= lead <= 0xDF {
        2
    } else if 0xE0 <= lead <= 0xEF {
        3
    } else if 0xF0 <= lead <= 0xF7 {
        4
    } else {
        0
    }
}

/// The payload bits of a lead byte: its low 7, 5, 4 or 3 bits, by the length
/// it announces.
pub open spec fn lead_payload(lead: u8) -> int {
    if lead <= 0x7F {
        lead as int
    } else if 0xC0 <= lead <= 0xDF {
        lead - 0xC0
    } else if 0xE0 <= lead <= 0xEF {
        lead - 0xE0
    } else if 0xF0 <= lead <= 0xF7 {
        lead - 0xF0
    } else {
        0
    }
}

/// The payload bits of a continuation byte: its low 6 bits.
pub open spec fn continuation_payload(b: u8) -> int {
    b - 0x80
}

/// The number that a lead byte and the continuation bytes after it assemble
/// to: the lead's payload bits first, then six more bits for every
/// continuation byte.
pub open spec fn code_point(bytes: Seq<u8>) -> int
    decreases bytes.len(),
{
    if bytes.len() == 0 {
        0
    } else if bytes.len() == 1 {
        lead_payload(bytes[0])
    } else {
        code_point(bytes.drop_last()) * 64 + continuation_payload(bytes.last())
    }
}

/// `bytes` begins a multi-byte sequence, is well formed as far as it goes,
/// and is still short of the length that its lead byte announces.
pub open spec fn unfinished(bytes: Seq<u8>) -> bool {
    &&& 1 <= bytes.len() < sequence_length(bytes[0])
    &&& forall|i: int| 1 <= i < bytes.len() ==> is_continuation(#[trigger] bytes[i])
}

/// `bytes` is everything that one decoding step takes: either a single byte,
/// or an unfinished sequence and the byte that ends it, be it the last
/// continuation byte or a byte that is none.
pub open spec fn complete(bytes: Seq<u8>) -> bool {
    &&& bytes.len() >= 1
    &&& bytes.len() >= 2 ==> unfinished(bytes.drop_last())
    &&& !unfinished(bytes)
}

/// The character that a complete run of bytes decodes to. A lead byte that
/// cannot begin a sequence, or a last byte that is no continuation byte, gives
/// U+FFFD; so does an assembled number that is no scalar value.
pub open spec fn decoded(bytes: Seq<u8>) -> char
    recommends
        complete(bytes),
{
    if sequence_length(bytes[0]) == 0 {
        BADCHAR
    } else if bytes.len() >= 2 && !is_continuation(bytes.last()) {
        BADCHAR
    } else {
        scalar_or_replacement(code_point(bytes))
    }
}

/// `code_point` written out for the four lengths a sequence can have.
pub proof fn lemma_code_point_by_length(bytes: Seq<u8>)
    requires
        1 <= bytes.len() <= 4,
    ensures
        bytes.len() == 1 ==> code_point(bytes) == lead_payload(bytes[0]),
        bytes.len() == 2 ==> code_point(bytes) == lead_payload(bytes[0]) * 64
            + continuation_payload(bytes[1]),
        bytes.len() == 3 ==> code_point(bytes) == lead_payload(bytes[0]) * 4096
            + continuation_payload(bytes[1]) * 64 + continuation_payload(bytes[2]),
        bytes.len() == 4 ==> code_point(bytes) == lead_payload(bytes[0]) * 262144
            + continuation_payload(bytes[1]) * 4096 + continuation_payload(bytes[2]) * 64
            + continuation_payload(bytes[3]),
    decreases bytes.len(),
{
    if bytes.len() >= 2 {
        lemma_code_point_by_length(bytes.drop_last());
    }
}

/// A sequence that is unfinished was so at every earlier byte.
pub proof fn lemma_unfinished_prefix(bytes: Seq<u8>, k: int)
    requires
        unfinished(bytes),
        1 <= k <= bytes.len(),
    ensures
        unfinished(bytes.take(k)),
{
    let shorter = bytes.take(k);
    assert(shorter[0] == bytes[0]);
    assert forall|i: int| 1 <= i < shorter.len() implies is_continuation(#[trigger] shorter[i]) by {
        assert(shorter[i] == bytes[i]);
    }
}

} // verus!
