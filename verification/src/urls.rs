//! File URLs, as the platform hands them over.

use vstd::prelude::*;
use vstd::utf8::{decode_utf8, encode_utf8, valid_utf8};

use crate::text::{begins_with, starts_with, text_from, to_chars};

verus! {

/// What `String::from_utf8` makes of bytes: the text that they encode, or nothing
/// where they are no UTF-8.
#[verifier::external_body]
fn text_of_bytes(bytes: Vec<u8>) -> (text: Option<String>)
    ensures
        match text {
            Some(text) => valid_utf8(bytes@) && text@ == decode_utf8(bytes@),
            None => !valid_utf8(bytes@),
        },
{
    String::from_utf8(bytes).ok()
}

/// The number that a hexadecimal digit stands for.
pub open spec fn hex_digit(value: u8) -> Option<u8> {
    if 48 <= value <= 57 {
        Some((value - 48) as u8)
    } else if 97 <= value <= 102 {
        Some((value - 87) as u8)
    } else if 65 <= value <= 70 {
        Some((value - 55) as u8)
    } else {
        None
    }
}

/// The number that a hexadecimal digit stands for.
pub fn hex_value(value: u8) -> (digit: Option<u8>)
    ensures
        digit == hex_digit(value),
{
    if 48 <= value && value <= 57 {
        Some(value - 48)
    } else if 97 <= value && value <= 102 {
        Some(value - 87)
    } else if 65 <= value && value <= 70 {
        Some(value - 55)
    } else {
        None
    }
}

/// The bytes behind percent escapes; nothing where an escape is cut short or no
/// hexadecimal number.
pub open spec fn decoded_bytes(bytes: Seq<u8>) -> Option<Seq<u8>>
    decreases bytes.len(),
{
    if bytes.len() == 0 {
        Some(Seq::empty())
    } else if bytes[0] == 37 {
        if bytes.len() < 3 {
            None
        } else {
            match (hex_digit(bytes[1]), hex_digit(bytes[2]), decoded_bytes(bytes.skip(3))) {
                (Some(high), Some(low), Some(rest)) => Some(
                    seq![(16 * high + low) as u8] + rest,
                ),
                _ => None,
            }
        }
    } else {
        match decoded_bytes(bytes.skip(1)) {
            Some(rest) => Some(seq![bytes[0]] + rest),
            None => None,
        }
    }
}

/// The text behind percent escapes; nothing where it cannot be read.
pub open spec fn decoded_text(text: Seq<char>) -> Option<Seq<char>> {
    match decoded_bytes(encode_utf8(text)) {
        Some(bytes) => if valid_utf8(bytes) {
            Some(decode_utf8(bytes))
        } else {
            None
        },
        None => None,
    }
}

/// The text behind percent escapes; nothing where it cannot be read.
pub fn percent_decode(value: &str) -> (text: Option<String>)
    ensures
        match text {
            Some(text) => decoded_text(value@) == Some(text@),
            None => decoded_text(value@) is None,
        },
{
    let bytes = value.as_bytes();
    let mut output: Vec<u8> = Vec::new();
    let mut index: usize = 0;
    assert(bytes@.skip(0) == bytes@);
    while index < bytes.len()
        invariant
            index <= bytes@.len(),
            bytes@ == encode_utf8(value@),
            match decoded_bytes(bytes@.skip(index as int)) {
                Some(rest) => decoded_bytes(bytes@) == Some(output@ + rest),
                None => decoded_bytes(bytes@) is None,
            },
        decreases bytes@.len() - index,
    {
        let ghost rest = bytes@.skip(index as int);
        let ghost before = output@;
        let byte: u8 = bytes[index];
        if byte == 37 {
            if bytes.len() - index < 3 {
                return None;
            }
            let (high, low): (u8, u8) = match (
                hex_value(bytes[index + 1]),
                hex_value(bytes[index + 2]),
            ) {
                (Some(high), Some(low)) => (high, low),
                _ => {
                    return None;
                },
            };
            let decoded: u8 = 16 * high + low;
            output.push(decoded);
            index += 3;
            proof {
                assert(rest.skip(3) == bytes@.skip(index as int));
                if let Some(tail) = decoded_bytes(rest.skip(3)) {
                    assert(before + (seq![decoded] + tail) == output@ + tail);
                }
            }
        } else {
            output.push(byte);
            index += 1;
            proof {
                assert(rest.skip(1) == bytes@.skip(index as int));
                if let Some(tail) = decoded_bytes(rest.skip(1)) {
                    assert(before + (seq![byte] + tail) == output@ + tail);
                }
            }
        }
    }
    assert(output@ + Seq::<u8>::empty() == output@);
    text_of_bytes(output)
}

/// What stands behind the host of a file URL.
pub open spec fn url_rest(url: Seq<char>) -> Option<Seq<char>> {
    if begins_with(url, "file://localhost/"@) {
        Some(url.skip("file://localhost/"@.len() as int))
    } else if begins_with(url, "file:///"@) {
        Some(url.skip("file:///"@.len() as int))
    } else {
        None
    }
}

/// The path that a file URL names.
pub open spec fn url_path(url: Seq<char>) -> Option<Seq<char>> {
    match url_rest(url) {
        Some(rest) => match decoded_text(rest) {
            Some(path) => Some("/"@ + path),
            None => None,
        },
        None => None,
    }
}

/// The path that a file URL names; nothing for any other URL.
pub fn file_url_to_path(url: &str) -> (path: Option<String>)
    ensures
        match path {
            Some(path) => url_path(url@) == Some(path@),
            None => url_path(url@) is None,
        },
{
    let chars = to_chars(url);
    let start: usize = if starts_with(&chars, "file://localhost/") {
        "file://localhost/".as_bytes().len()
    } else if starts_with(&chars, "file:///") {
        "file:///".as_bytes().len()
    } else {
        return None;
    };
    proof {
        reveal_strlit("file://localhost/");
        reveal_strlit("file:///");
        vstd::utf8::is_ascii_chars_encode_utf8("file://localhost/"@);
        vstd::utf8::is_ascii_chars_encode_utf8("file:///"@);
    }
    let rest = text_from(&chars, start, chars.len());
    assert(rest@ == chars@.skip(start as int));
    match percent_decode(rest.as_str()) {
        Some(tail) => {
            let mut path = "/".to_owned();
            path.push_str(tail.as_str());
            Some(path)
        },
        None => None,
    }
}

/// A hexadecimal digit.
pub open spec fn hex_byte(digit: int) -> u8 {
    if digit < 10 {
        (48 + digit) as u8
    } else {
        (55 + digit) as u8
    }
}

/// Bytes with every one of them escaped.
pub open spec fn all_escaped(bytes: Seq<u8>) -> Seq<u8>
    decreases bytes.len(),
{
    if bytes.len() == 0 {
        Seq::empty()
    } else {
        seq![37u8, hex_byte(bytes[0] as int / 16), hex_byte(bytes[0] as int % 16)] + all_escaped(
            bytes.skip(1),
        )
    }
}

/// Decoding undoes escaping.
pub proof fn decoding_undoes_escaping(bytes: Seq<u8>)
    ensures
        decoded_bytes(all_escaped(bytes)) == Some(bytes),
    decreases bytes.len(),
{
    if bytes.len() > 0 {
        decoding_undoes_escaping(bytes.skip(1));
        let escaped = all_escaped(bytes);
        assert(escaped.skip(3) == all_escaped(bytes.skip(1)));
        assert(seq![bytes[0]] + bytes.skip(1) == bytes);
    } else {
        assert(all_escaped(bytes) == Seq::<u8>::empty());
        assert(bytes == Seq::<u8>::empty());
    }
}

/// Bytes without an escape are left as they are.
pub proof fn decoding_keeps_unescaped_bytes(bytes: Seq<u8>)
    requires
        !bytes.contains(37),
    ensures
        decoded_bytes(bytes) == Some(bytes),
    decreases bytes.len(),
{
    if bytes.len() > 0 {
        let rest = bytes.skip(1);
        assert forall|i: int| 0 <= i < rest.len() implies rest[i] != 37 by {
            assert(bytes.contains(bytes[i + 1]));
        }
        assert(bytes.contains(bytes[0]));
        decoding_keeps_unescaped_bytes(rest);
        assert(seq![bytes[0]] + rest == bytes);
    } else {
        assert(bytes == Seq::<u8>::empty());
    }
}

/// A URL for a file on this machine leads to the same path with the machine's name and without;
/// any other URL leads to no path.
pub proof fn local_urls_lead_to_paths(rest: Seq<char>, other: Seq<char>)
    requires
        other.len() < 8 || !begins_with(other, "file://"@),
    ensures
        url_rest("file:///"@ + rest) == Some(rest),
        url_rest("file://localhost/"@ + rest) == Some(rest),
        url_path("file:///"@ + rest) == url_path("file://localhost/"@ + rest),
        decoded_text(rest) is None ==> url_path("file:///"@ + rest) is None,
        decoded_text(rest) is Some ==> url_path("file:///"@ + rest) == Some(
            seq!['/'] + decoded_text(rest)->0,
        ),
        url_path(other) is None,
{
    reveal_strlit("file:///");
    reveal_strlit("file://");
    reveal_strlit("file://localhost/");
    reveal_strlit("/");
    let (short, long, scheme) = ("file:///"@, "file://localhost/"@, "file://"@);
    assert("/"@ =~= seq!['/']);
    assert((short + rest).take(8) =~= short);
    assert((short + rest).skip(8) =~= rest);
    assert((long + rest).take(17) =~= long);
    assert((long + rest).skip(17) =~= rest);
    if begins_with(short + rest, long) {
        assert((short + rest).take(17)[7] == long[7]);
    }
    if begins_with(other, short) {
        assert(other.take(8)[0] == other[0]);
        assert(other.take(7) =~= other.take(8).take(7));
        assert(short.take(7) =~= scheme);
        assert(begins_with(other, scheme));
    }
    if begins_with(other, long) {
        assert(other.take(7) =~= other.take(17).take(7));
        assert(long.take(7) =~= scheme);
        assert(begins_with(other, scheme));
    }
}

/// The digits of an escape count the same in capitals and in small letters, and nothing but
/// digits counts; a text with an escape that is cut off or has other characters leads nowhere.
pub proof fn escapes_have_two_digits(first: u8, second: u8, rest: Seq<u8>)
    ensures
        97 <= first <= 102 ==> hex_digit(first) == hex_digit((first - 32) as u8) && hex_digit(first)
            == Some((first - 97 + 10) as u8),
        48 <= first <= 57 ==> hex_digit(first) == Some((first - 48) as u8),
        hex_digit(first) is Some ==> hex_digit(first)->0 < 16,
        (first < 48 || 57 < first < 65 || 70 < first < 97 || 102 < first) ==> hex_digit(first)
            is None,
        hex_digit(first) is None || hex_digit(second) is None ==> decoded_bytes(
            seq![37u8, first, second] + rest,
        ) is None,
        hex_digit(first) is Some && hex_digit(second) is Some && decoded_bytes(rest) is Some
            ==> decoded_bytes(seq![37u8, first, second] + rest) == Some(
            seq![(16 * hex_digit(first)->0 + hex_digit(second)->0) as u8] + decoded_bytes(rest)->0,
        ),
        decoded_bytes(seq![37u8]) is None,
        decoded_bytes(seq![37u8, first]) is None,
{
    let text = seq![37u8, first, second] + rest;
    assert(text.skip(3) =~= rest);
    assert(text[0] == 37 && text[1] == first && text[2] == second);
}

} // verus!
