use std::io::{Error, ErrorKind, Read};

use utf8reader::reader::to_byte;
use utf8reader::{UTF8Reader, BADCHAR};

/// Hands out the bytes it holds, one per read, and then fails.
struct FailsAfter {
    bytes: Vec<u8>,
    at: usize,
}

impl Read for FailsAfter {
    fn read(&mut self, buf: &mut [u8]) -> std::io::Result<usize> {
        if self.at < self.bytes.len() {
            buf[0] = self.bytes[self.at];
            self.at += 1;
            Ok(1)
        } else {
            Err(Error::new(ErrorKind::ConnectionReset, "source failed"))
        }
    }
}

fn decode_all(bytes: &[u8]) -> Vec<char> {
    let mut reader = UTF8Reader::new(bytes);
    let mut out = Vec::new();
    loop {
        match reader.getc() {
            Ok(Some(c)) => out.push(c),
            Ok(None) => break,
            Err(e) => panic!("a slice does not fail: {}", e),
        }
    }
    out
}

#[test]
fn it_works() {
    let mut reader = UTF8Reader::new(&b""[..]);
    assert_eq!(reader.getc().unwrap(), None);
}

#[test]
fn hello_then_end() {
    let mut reader = UTF8Reader::new(&[0x48u8, 0x65, 0x6C, 0x6C, 0x6F][..]);
    assert_eq!(reader.getc().unwrap(), Some('H'));
    assert_eq!(reader.getc().unwrap(), Some('e'));
    assert_eq!(reader.getc().unwrap(), Some('l'));
    assert_eq!(reader.getc().unwrap(), Some('l'));
    assert_eq!(reader.getc().unwrap(), Some('o'));
    assert_eq!(reader.getc().unwrap(), None);
}

#[test]
fn e_acute_then_end() {
    let mut reader = UTF8Reader::new(&[0xC3u8, 0xA9][..]);
    assert_eq!(reader.getc().unwrap(), Some('\u{E9}'));
    assert_eq!(reader.getc().unwrap(), None);
}

#[test]
fn invalid_byte_then_letter() {
    let mut reader = UTF8Reader::new(&[0xFFu8, 0x41][..]);
    assert_eq!(reader.getc().unwrap(), Some('\u{FFFD}'));
    assert_eq!(reader.getc().unwrap(), Some('A'));
    assert_eq!(reader.getc().unwrap(), None);
}

#[test]
fn every_ascii_byte_is_its_own_character() {
    for b in 0x00u8..=0x7F {
        let input = [b, b'!'];
        let mut reader = UTF8Reader::new(&input[..]);
        assert_eq!(reader.getc().unwrap(), Some(b as char));
        assert_eq!(reader.getc().unwrap(), Some('!'));
        assert_eq!(reader.getc().unwrap(), None);
    }
}

#[test]
fn every_two_byte_sequence_is_rebuilt() {
    for lead in 0xC2u8..=0xDF {
        for next in 0x80u8..=0xBF {
            let value = (((lead & 0x1F) as u32) << 6) | (next & 0x3F) as u32;
            assert!((0x80..=0x7FF).contains(&value));
            let input = [lead, next, b'!'];
            let mut reader = UTF8Reader::new(&input[..]);
            let c = reader.getc().unwrap().unwrap();
            assert_eq!(c as u32, value);
            assert_eq!(std::str::from_utf8(&input[..2]).unwrap(), c.to_string());
            assert_eq!(reader.getc().unwrap(), Some('!'));
        }
    }
}

#[test]
fn three_byte_sequences_are_rebuilt() {
    assert_eq!(decode_all(&[0xE2, 0x82, 0xAC]), vec!['\u{20AC}']);
    assert_eq!(decode_all(&[0xE0, 0xA0, 0x80]), vec!['\u{800}']);
    assert_eq!(decode_all(&[0xED, 0x9F, 0xBF]), vec!['\u{D7FF}']);
    assert_eq!(decode_all(&[0xEE, 0x80, 0x80]), vec!['\u{E000}']);
    assert_eq!(decode_all(&[0xEF, 0xBF, 0xBF]), vec!['\u{FFFF}']);
    assert_eq!(decode_all(&[0xEF, 0xBF, 0xBD]), vec!['\u{FFFD}']);
}

#[test]
fn four_byte_sequences_are_rebuilt() {
    assert_eq!(decode_all(&[0xF0, 0x9F, 0x98, 0x80]), vec!['\u{1F600}']);
    assert_eq!(decode_all(&[0xF0, 0x90, 0x80, 0x80]), vec!['\u{10000}']);
    assert_eq!(decode_all(&[0xF4, 0x8F, 0xBF, 0xBF]), vec!['\u{10FFFF}']);
}

#[test]
fn every_character_survives_encoding_and_decoding() {
    let mut buf = [0u8; 4];
    for v in 0u32..=0x10FFFF {
        if let Some(c) = char::from_u32(v) {
            let encoded = c.encode_utf8(&mut buf).as_bytes();
            let mut reader = UTF8Reader::new(encoded);
            assert_eq!(reader.getc().unwrap(), Some(c));
            assert_eq!(reader.getc().unwrap(), None);
        }
    }
}

#[test]
fn surrogates_become_the_replacement_character() {
    assert_eq!(decode_all(&[0xED, 0xA0, 0x80, b'a']), vec![BADCHAR, 'a']);
    assert_eq!(decode_all(&[0xED, 0xBF, 0xBF, b'a']), vec![BADCHAR, 'a']);
}

#[test]
fn values_above_the_last_code_point_become_the_replacement_character() {
    assert_eq!(decode_all(&[0xF4, 0x90, 0x80, 0x80, b'a']), vec![BADCHAR, 'a']);
    assert_eq!(decode_all(&[0xF7, 0xBF, 0xBF, 0xBF, b'a']), vec![BADCHAR, 'a']);
}

#[test]
fn overlong_forms_are_assembled_all_the_same() {
    assert_eq!(decode_all(&[0xC0, 0x80]), vec!['\0']);
    assert_eq!(decode_all(&[0xC1, 0xBF]), vec!['\u{7F}']);
    assert_eq!(decode_all(&[0xE0, 0x80, 0xAF]), vec!['/']);
    assert_eq!(decode_all(&[0xF0, 0x80, 0x80, 0x80]), vec!['\0']);
}

#[test]
fn stray_continuation_takes_one_byte() {
    for b in 0x80u8..=0xBF {
        assert_eq!(decode_all(&[b, b'a']), vec![BADCHAR, 'a']);
        assert_eq!(decode_all(&[b, 0xC3, 0xA9]), vec![BADCHAR, '\u{E9}']);
    }
}

#[test]
fn lead_of_five_or_more_bytes_takes_one_byte() {
    for b in 0xF8u8..=0xFF {
        assert_eq!(decode_all(&[b, b'a']), vec![BADCHAR, 'a']);
        assert_eq!(decode_all(&[b, 0x80]), vec![BADCHAR, BADCHAR]);
    }
}

#[test]
fn three_byte_lead_at_the_end_gives_one_replacement_then_the_end() {
    for lead in 0xE0u8..=0xEF {
        let input = [lead];
        let mut reader = UTF8Reader::new(&input[..]);
        assert_eq!(reader.getc().unwrap(), Some(BADCHAR));
        assert_eq!(reader.getc().unwrap(), None);
        assert_eq!(reader.getc().unwrap(), None);
    }
}

#[test]
fn sequence_cut_short_by_the_end_gives_one_replacement() {
    assert_eq!(decode_all(&[0xC3]), vec![BADCHAR]);
    assert_eq!(decode_all(&[0xE2, 0x82]), vec![BADCHAR]);
    assert_eq!(decode_all(&[0xF0, 0x9F]), vec![BADCHAR]);
    assert_eq!(decode_all(&[0xF0, 0x9F, 0x98]), vec![BADCHAR]);
    assert_eq!(decode_all(&[b'a', 0xF0, 0x9F, 0x98]), vec!['a', BADCHAR]);
}

#[test]
fn rejecting_byte_is_spent_with_the_lead() {
    let mut reader = UTF8Reader::new(&[0xC3u8, 0x41, 0x42][..]);
    assert_eq!(reader.getc().unwrap(), Some(BADCHAR));
    assert_eq!(reader.getc().unwrap(), Some('B'));
    assert_eq!(reader.getc().unwrap(), None);
    for lead in 0xC0u8..=0xDF {
        assert_eq!(decode_all(&[lead, 0x41, 0x42]), vec![BADCHAR, 'B']);
        assert_eq!(decode_all(&[lead, 0xC3, 0xA9]), vec![BADCHAR, BADCHAR]);
        assert_eq!(decode_all(&[lead, 0xFF, 0x42]), vec![BADCHAR, 'B']);
    }
}

#[test]
fn rejecting_byte_in_longer_sequences_is_spent_too() {
    assert_eq!(decode_all(&[0xE2, 0x41, 0x42]), vec![BADCHAR, 'B']);
    assert_eq!(decode_all(&[0xE2, 0x82, 0x41, 0x42]), vec![BADCHAR, 'B']);
    assert_eq!(decode_all(&[0xF0, 0x41, 0x42]), vec![BADCHAR, 'B']);
    assert_eq!(decode_all(&[0xF0, 0x9F, 0x41, 0x42]), vec![BADCHAR, 'B']);
    assert_eq!(decode_all(&[0xF0, 0x9F, 0x98, 0x41, 0x42]), vec![BADCHAR, 'B']);
    assert_eq!(decode_all(&[0xE2, 0x82, 0xE2, 0x82, 0xAC]), vec![BADCHAR, BADCHAR, BADCHAR]);
}

#[test]
fn mixed_input_degrades_to_replacements_between_characters() {
    let input = [b'a', 0x80, 0xC3, 0xA9, 0xFF, 0xE2, 0x82, 0xAC, 0xF0, 0x9F, 0x98, 0x80, 0xC3];
    assert_eq!(
        decode_all(&input),
        vec!['a', BADCHAR, '\u{E9}', BADCHAR, '\u{20AC}', '\u{1F600}', BADCHAR]
    );
}

#[test]
fn agrees_with_lossless_decoding_of_valid_text() {
    let text = "na\u{EF}ve \u{20AC}5 \u{1F600} \u{10FFFF}\0end";
    let decoded: String = decode_all(text.as_bytes()).into_iter().collect();
    assert_eq!(decoded, text);
}

#[test]
fn failure_at_the_first_read_is_handed_on() {
    let mut reader = UTF8Reader::new(FailsAfter { bytes: vec![], at: 0 });
    let e = reader.getc().unwrap_err();
    assert_eq!(e.kind(), ErrorKind::ConnectionReset);
    assert_eq!(e.to_string(), "source failed");
}

#[test]
fn failure_inside_a_sequence_is_handed_on_without_a_replacement() {
    let mut reader = UTF8Reader::new(FailsAfter { bytes: vec![b'a', 0xE2, 0x82], at: 0 });
    assert_eq!(reader.getc().unwrap(), Some('a'));
    let e = reader.getc().unwrap_err();
    assert_eq!(e.kind(), ErrorKind::ConnectionReset);
}

#[test]
fn failure_after_whole_characters_comes_with_the_next_call() {
    let mut reader = UTF8Reader::new(FailsAfter { bytes: vec![0xC3, 0xA9], at: 0 });
    assert_eq!(reader.getc().unwrap(), Some('\u{E9}'));
    assert!(reader.getc().is_err());
}

#[test]
fn next_yields_characters_and_stops_at_the_end() {
    let mut reader = UTF8Reader::new(&[0x48u8, 0xC3, 0xA9, 0xFF][..]);
    assert_eq!(reader.next().map(|r| r.unwrap()), Some('H'));
    assert_eq!(reader.next().map(|r| r.unwrap()), Some('\u{E9}'));
    assert_eq!(reader.next().map(|r| r.unwrap()), Some(BADCHAR));
    assert!(reader.next().is_none());
}

#[test]
fn next_yields_a_failure_as_an_element() {
    let mut reader = UTF8Reader::new(FailsAfter { bytes: vec![b'x'], at: 0 });
    assert_eq!(reader.next().map(|r| r.unwrap()), Some('x'));
    match reader.next() {
        Some(Err(e)) => assert_eq!(e.kind(), ErrorKind::ConnectionReset),
        _ => panic!("a failure is an element of the sequence"),
    }
}

#[test]
fn reads_one_byte_at_a_time_and_no_further() {
    let input = [0xC3u8, 0xA9, b'z'];
    let mut source = &input[..];
    {
        let mut reader = UTF8Reader::new(&mut source);
        assert_eq!(reader.getc().unwrap(), Some('\u{E9}'));
    }
    assert_eq!(source, &b"z"[..]);
}

#[test]
fn to_byte_takes_a_read_of_nothing_for_the_end() {
    assert_eq!(to_byte(Ok(0), [0x41]).unwrap(), None);
    assert_eq!(to_byte(Ok(0), [0]).unwrap(), None);
}

#[test]
fn to_byte_takes_the_byte_left_in_the_buffer() {
    assert_eq!(to_byte(Ok(1), [0x41]).unwrap(), Some(0x41));
    assert_eq!(to_byte(Ok(1), [0]).unwrap(), Some(0));
    assert_eq!(to_byte(Ok(1), [0xFF]).unwrap(), Some(0xFF));
    assert_eq!(to_byte(Ok(7), [0x42]).unwrap(), Some(0x42));
}

#[test]
fn to_byte_keeps_the_failure() {
    let e = to_byte(Err(Error::new(ErrorKind::TimedOut, "too slow")), [0x41]).unwrap_err();
    assert_eq!(e.kind(), ErrorKind::TimedOut);
    assert_eq!(e.to_string(), "too slow");
}

/// Counts the reads made on it and the length of the buffers it was given.
struct Counting<'a> {
    bytes: &'a [u8],
    calls: usize,
    longest: usize,
}

impl<'a> Read for Counting<'a> {
    fn read(&mut self, buf: &mut [u8]) -> std::io::Result<usize> {
        self.calls += 1;
        self.longest = self.longest.max(buf.len());
        self.bytes.read(buf)
    }
}

#[test]
fn one_read_of_one_byte_for_every_byte_taken() {
    let mut source = Counting { bytes: &[0xE2, 0x82, 0xAC, b'a', 0xC3, 0x41, b'b'], calls: 0, longest: 0 };
    {
        let mut reader = UTF8Reader::new(&mut source);
        assert_eq!(reader.getc().unwrap(), Some('\u{20AC}'));
    }
    assert_eq!((source.calls, source.longest), (3, 1));
    {
        let mut reader = UTF8Reader::new(&mut source);
        assert_eq!(reader.getc().unwrap(), Some('a'));
    }
    assert_eq!(source.calls, 4);
    {
        let mut reader = UTF8Reader::new(&mut source);
        assert_eq!(reader.getc().unwrap(), Some(BADCHAR));
    }
    assert_eq!(source.calls, 6);
    {
        let mut reader = UTF8Reader::new(&mut source);
        assert_eq!(reader.getc().unwrap(), Some('b'));
        assert_eq!(reader.getc().unwrap(), None);
    }
    assert_eq!((source.calls, source.longest), (8, 1));
}
