//! What holds of every call for a character, stated over `outcome`: the
//! function of a call's reads that `UTF8Reader::getc` promises to return.

use vstd::prelude::*;
use vstd::utf8::{
    char_u32_cast, codepoint_width_2, codepoint_width_3, codepoint_width_4,
    decode_first_scalar, decode_utf8_first_scalar, encode_scalar, encode_utf8,
    encode_utf8_first_scalar, length_of_first_scalar, pop_first_scalar, take_first_scalar,
    valid_first_scalar, valid_utf8,
};
use crate::reader::{bytes_of, outcome, reads_of, CharResult, ReadResult};
use crate::scalar::{is_scalar_value, scalar_or_replacement, BADCHAR};
use crate::sequence::{
    code_point, complete, decoded, is_continuation, lemma_code_point_by_length,
    lemma_unfinished_prefix, sequence_length, unfinished,
};

verus! {

/// Reads that return the bytes of a complete run, and nothing else, are one
/// call, and it returns the character the run decodes to.
pub proof fn lemma_outcome_of_complete(bytes: Seq<u8>)
    requires
        complete(bytes),
    ensures
        outcome(reads_of(bytes)) == Some::<CharResult>(Ok(Some(decoded(bytes)))),
{
    let reads = reads_of(bytes);
    let earlier = reads.drop_last();
    assert(earlier =~= reads_of(bytes.drop_last()));
    assert(bytes_of(earlier) =~= bytes.drop_last());
    assert(bytes.drop_last().push(bytes.last()) =~= bytes);
}

/// Reads that return the bytes of an unfinished sequence, or none, and then
/// the end of the source are one call. It returns the end where no byte came
/// before it, and U+FFFD otherwise.
pub proof fn lemma_outcome_at_end(bytes: Seq<u8>)
    requires
        bytes.len() == 0 || unfinished(bytes),
    ensures
        outcome(reads_of(bytes).push(Ok(None))) == Some::<CharResult>(
            Ok(
                if bytes.len() == 0 {
                    None
                } else {
                    Some(BADCHAR)
                },
            ),
        ),
{
    let reads = reads_of(bytes).push(Ok(None));
    assert(reads.drop_last() =~= reads_of(bytes));
    assert(bytes_of(reads_of(bytes)) =~= bytes);
}

/// A failure of the source ends the call at once, whether at its first read
/// or inside a sequence, and the call returns that failure and no character.
pub proof fn theorem_failure_is_handed_on(bytes: Seq<u8>, e: std::io::Error)
    requires
        bytes.len() == 0 || unfinished(bytes),
    ensures
        outcome(reads_of(bytes).push(Err(e))) == Some::<CharResult>(Err(e)),
{
    let reads = reads_of(bytes).push(Err(e));
    assert(reads.drop_last() =~= reads_of(bytes));
    assert(bytes_of(reads_of(bytes)) =~= bytes);
}

/// A call ends once: where the reads `reads` are one whole call, no shorter
/// beginning of them is. So the length of `reads` is the number of reads that
/// the call makes, neither more nor fewer.
pub proof fn theorem_call_ends_once(reads: Seq<ReadResult>, k: int)
    requires
        outcome(reads) is Some,
        0 < k < reads.len(),
    ensures
        outcome(reads.take(k)) is None,
{
    let earlier = reads.drop_last();
    let taken = bytes_of(earlier);
    let part = reads.take(k);
    assert(part.last() == earlier[k - 1]);
    let b = taken[k - 1];
    assert(part.last() == reads_of(taken)[k - 1]);
    let part_taken = bytes_of(part.drop_last());
    assert(part_taken.push(b) =~= taken.take(k));
    lemma_unfinished_prefix(taken, k);
}

/// Every byte from `0x00` to `0x7F`, read first, is a call of its own, and the
/// call returns the character with that value.
pub proof fn theorem_ascii(b: u8)
    requires
        b <= 0x7F,
    ensures
        outcome(reads_of(seq![b])) == Some::<CharResult>(Ok(Some(b as char))),
{
    let bytes = seq![b];
    lemma_code_point_by_length(bytes);
    lemma_outcome_of_complete(bytes);
}

/// A continuation byte (`0x80` to `0xBF`), read first, is a call of its own,
/// and the call returns U+FFFD.
pub proof fn theorem_stray_continuation(b: u8)
    requires
        0x80 <= b <= 0xBF,
    ensures
        outcome(reads_of(seq![b])) == Some::<CharResult>(Ok(Some(BADCHAR))),
{
    lemma_outcome_of_complete(seq![b]);
}

/// A byte with five or more leading one bits (`0xF8` to `0xFF`), read first,
/// is a call of its own, and the call returns U+FFFD.
pub proof fn theorem_invalid_lead(b: u8)
    requires
        0xF8 <= b,
    ensures
        outcome(reads_of(seq![b])) == Some::<CharResult>(Ok(Some(BADCHAR))),
{
    lemma_outcome_of_complete(seq![b]);
}

/// The lead byte of a three-byte sequence and then the end of the source are
/// one call, which returns U+FFFD. A call that meets the end of the source at
/// its first read returns the end.
pub proof fn theorem_truncated_at_end(lead: u8)
    requires
        0xE0 <= lead <= 0xEF,
    ensures
        outcome(reads_of(seq![lead]).push(Ok(None))) == Some::<CharResult>(Ok(Some(BADCHAR))),
        outcome(reads_of(Seq::empty()).push(Ok(None))) == Some::<CharResult>(Ok(None)),
{
    lemma_outcome_at_end(seq![lead]);
    lemma_outcome_at_end(Seq::empty());
}

/// The lead byte of a two-byte sequence and a byte that is no continuation
/// byte are one call, which returns U+FFFD. Both bytes are spent in it: the
/// next call begins at the read after them.
pub proof fn theorem_rejected_continuation(lead: u8, b: u8)
    requires
        0xC0 <= lead <= 0xDF,
        !is_continuation(b),
    ensures
        outcome(reads_of(seq![lead, b])) == Some::<CharResult>(Ok(Some(BADCHAR))),
        outcome(reads_of(seq![lead])) is None,
{
    let bytes = seq![lead, b];
    assert(bytes.drop_last() =~= seq![lead]);
    lemma_outcome_of_complete(bytes);
    let reads = reads_of(bytes);
    assert(reads.take(1) =~= reads_of(seq![lead]));
    theorem_call_ends_once(reads, 1);
}

/// A lead byte with as many continuation bytes as it announces is a complete
/// run.
proof fn lemma_continuations_complete(bytes: Seq<u8>)
    requires
        bytes.len() >= 1,
        bytes.len() == sequence_length(bytes[0]),
        forall|i: int| 1 <= i < bytes.len() ==> is_continuation(#[trigger] bytes[i]),
    ensures
        complete(bytes),
        bytes.len() >= 2 ==> is_continuation(bytes.last()),
{
    if bytes.len() >= 2 {
        let shorter = bytes.drop_last();
        assert(shorter[0] == bytes[0]);
        assert forall|i: int| 1 <= i < shorter.len() implies is_continuation(
            #[trigger] shorter[i],
        ) by {
            assert(shorter[i] == bytes[i]);
        }
    }
}

proof fn lemma_payload_bits_2(b1: u8, b2: u8)
    by (bit_vector)
    requires
        0xC0 <= b1 <= 0xDF,
        0x80 <= b2 <= 0xBF,
    ensures
        codepoint_width_2(b1, b2) == (b1 - 0xC0) * 64 + (b2 - 0x80),
{
}

proof fn lemma_payload_bits_3(b1: u8, b2: u8, b3: u8)
    by (bit_vector)
    requires
        0xE0 <= b1 <= 0xEF,
        0x80 <= b2 <= 0xBF,
        0x80 <= b3 <= 0xBF,
    ensures
        codepoint_width_3(b1, b2, b3) == (b1 - 0xE0) * 4096 + (b2 - 0x80) * 64 + (b3 - 0x80),
{
}

proof fn lemma_payload_bits_4(b1: u8, b2: u8, b3: u8, b4: u8)
    by (bit_vector)
    requires
        0xF0 <= b1 <= 0xF7,
        0x80 <= b2 <= 0xBF,
        0x80 <= b3 <= 0xBF,
        0x80 <= b4 <= 0xBF,
    ensures
        codepoint_width_4(b1, b2, b3, b4) == (b1 - 0xF0) * 262144 + (b2 - 0x80) * 4096 + (b3
            - 0x80) * 64 + (b4 - 0x80),
{
}

/// Every well-formed UTF-8 encoding of one scalar value, as `vstd::utf8`
/// defines it (of any length from one to four bytes, not overlong, no
/// surrogate, not above U+10FFFF), is one call, and the call returns the
/// character that was encoded.
pub proof fn theorem_decodes_well_formed(bytes: Seq<u8>)
    requires
        valid_first_scalar(bytes),
        bytes.len() == length_of_first_scalar(bytes),
    ensures
        outcome(reads_of(bytes)) == Some::<CharResult>(
            Ok(Some(decode_first_scalar(bytes) as char)),
        ),
        encode_scalar((decode_first_scalar(bytes) as char) as u32) == bytes,
{
    lemma_code_point_by_length(bytes);
    if bytes.len() == 1 {
        let b = bytes[0];
        assert(b & 0x7F == b) by (bit_vector)
            requires
                b <= 0x7F,
        ;
    } else if bytes.len() == 2 {
        lemma_payload_bits_2(bytes[0], bytes[1]);
    } else if bytes.len() == 3 {
        lemma_payload_bits_3(bytes[0], bytes[1], bytes[2]);
    } else {
        lemma_payload_bits_4(bytes[0], bytes[1], bytes[2], bytes[3]);
    }
    assert(code_point(bytes) == decode_first_scalar(bytes));
    lemma_continuations_complete(bytes);
    lemma_outcome_of_complete(bytes);
    assert(pop_first_scalar(bytes) =~= Seq::<u8>::empty());
    assert(valid_utf8(pop_first_scalar(bytes)));
    assert(valid_utf8(bytes));
    decode_utf8_first_scalar(bytes);
    assert(take_first_scalar(bytes) =~= bytes);
}

/// A lead byte from `0xC2` to `0xDF` and one continuation byte are one call.
/// It returns the character whose value is the lead's low five bits followed
/// by the continuation byte's low six; the value lies from U+0080 to U+07FF,
/// and the two bytes are its UTF-8 encoding.
pub proof fn theorem_two_bytes(lead: u8, next: u8)
    requires
        0xC2 <= lead <= 0xDF,
        0x80 <= next <= 0xBF,
    ensures
        ({
            let v = (lead - 0xC0) * 64 + (next - 0x80);
            &&& 0x80 <= v <= 0x7FF
            &&& outcome(reads_of(seq![lead, next])) == Some::<CharResult>(Ok(Some(v as char)))
            &&& encode_scalar(v as u32) == seq![lead, next]
        }),
{
    let bytes = seq![lead, next];
    lemma_payload_bits_2(lead, next);
    theorem_decodes_well_formed(bytes);
}

/// A lead byte from `0xE0` to `0xEF` and two continuation bytes are one call.
/// The value is the lead's low four bits followed by the low six of either
/// continuation byte. Where it is a scalar value the call returns its
/// character, else U+FFFD; where it is a scalar value from U+0800 on, the
/// three bytes are its UTF-8 encoding.
pub proof fn theorem_three_bytes(lead: u8, second: u8, third: u8)
    requires
        0xE0 <= lead <= 0xEF,
        0x80 <= second <= 0xBF,
        0x80 <= third <= 0xBF,
    ensures
        ({
            let v = (lead - 0xE0) * 4096 + (second - 0x80) * 64 + (third - 0x80);
            &&& 0 <= v <= 0xFFFF
            &&& outcome(reads_of(seq![lead, second, third])) == Some::<CharResult>(
                Ok(Some(scalar_or_replacement(v))),
            )
            &&& is_scalar_value(v) && 0x800 <= v ==> encode_scalar(v as u32) == seq![
                lead,
                second,
                third,
            ]
        }),
{
    let bytes = seq![lead, second, third];
    let v = (lead - 0xE0) * 4096 + (second - 0x80) * 64 + (third - 0x80);
    lemma_code_point_by_length(bytes);
    lemma_continuations_complete(bytes);
    lemma_outcome_of_complete(bytes);
    if is_scalar_value(v) && 0x800 <= v {
        lemma_payload_bits_3(lead, second, third);
        theorem_decodes_well_formed(bytes);
    }
}

/// A lead byte from `0xF0` to `0xF7` and three continuation bytes are one
/// call. The value is the lead's low three bits followed by the low six of
/// every continuation byte. Where it is a scalar value the call returns its
/// character, else U+FFFD; where it lies from U+10000 to U+10FFFF, the four
/// bytes are its UTF-8 encoding.
pub proof fn theorem_four_bytes(lead: u8, second: u8, third: u8, fourth: u8)
    requires
        0xF0 <= lead <= 0xF7,
        0x80 <= second <= 0xBF,
        0x80 <= third <= 0xBF,
        0x80 <= fourth <= 0xBF,
    ensures
        ({
            let v = (lead - 0xF0) * 262144 + (second - 0x80) * 4096 + (third - 0x80) * 64 + (
            fourth - 0x80);
            &&& 0 <= v <= 0x1FFFFF
            &&& outcome(reads_of(seq![lead, second, third, fourth])) == Some::<CharResult>(
                Ok(Some(scalar_or_replacement(v))),
            )
            &&& 0x10000 <= v <= 0x10FFFF ==> encode_scalar(v as u32) == seq![
                lead,
                second,
                third,
                fourth,
            ]
        }),
{
    let bytes = seq![lead, second, third, fourth];
    let v = (lead - 0xF0) * 262144 + (second - 0x80) * 4096 + (third - 0x80) * 64 + (fourth
        - 0x80);
    lemma_code_point_by_length(bytes);
    lemma_continuations_complete(bytes);
    lemma_outcome_of_complete(bytes);
    if 0x10000 <= v <= 0x10FFFF {
        lemma_payload_bits_4(lead, second, third, fourth);
        theorem_decodes_well_formed(bytes);
    }
}

/// Encoding a character as UTF-8 and decoding the bytes gives the character
/// back: the bytes are one call, and it returns the character.
pub proof fn theorem_round_trip(c: char)
    ensures
        outcome(reads_of(encode_scalar(c as u32))) == Some::<CharResult>(Ok(Some(c))),
{
    let bytes = encode_scalar(c as u32);
    let chars = seq![c];
    assert(encode_utf8(chars.drop_first()) =~= Seq::<u8>::empty());
    assert(encode_utf8(chars) =~= bytes);
    encode_utf8_first_scalar(chars);
    theorem_decodes_well_formed(bytes);
    char_u32_cast(c, decode_first_scalar(bytes));
}

} // verus!
