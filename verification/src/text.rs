//! Text primitives shared by the parsers and formatters.

use vstd::prelude::*;

verus! {

/// `String::push` appends one character at the end.
pub assume_specification[ String::push ](text: &mut String, ch: char)
    ensures
        final(text)@ == old(text)@.push(ch),
;

/// `String::push_str` appends a whole string slice at the end.
pub assume_specification[ String::push_str ](text: &mut String, tail: &str)
    ensures
        final(text)@ == old(text)@ + tail@,
;

/// The characters of a text, in order.
pub fn to_chars(text: &str) -> (chars: Vec<char>)
    ensures
        chars@ == text@,
{
    let mut chars: Vec<char> = Vec::new();
    for ch in it: text.chars()
        invariant
            chars@ == it.seq().take(it.index()),
            it.seq() == text@,
    {
        chars.push(ch);
    }
    chars
}

/// Whether two texts hold the same characters.
pub fn same_text(left: &str, right: &str) -> (same: bool)
    ensures
        same == (left@ == right@),
{
    left.to_owned() == right.to_owned()
}

/// The text made of the characters of `chars` from `start` up to `end`.
pub fn text_from(chars: &Vec<char>, start: usize, end: usize) -> (text: String)
    requires
        start <= end <= chars@.len(),
    ensures
        text@ == chars@.subrange(start as int, end as int),
{
    let mut text = String::new();
    let mut index: usize = start;
    while index < end
        invariant
            start <= index <= end <= chars@.len(),
            text@ == chars@.subrange(start as int, index as int),
        decreases end - index,
    {
        text.push(chars[index]);
        index += 1;
    }
    text
}

/// The index of the first `wanted`, counted from the start.
pub open spec fn first_index(text: Seq<char>, wanted: char) -> Option<int>
    decreases text.len(),
{
    if text.len() == 0 {
        None
    } else if text[0] == wanted {
        Some(0)
    } else {
        match first_index(text.skip(1), wanted) {
            Some(index) => Some(index + 1),
            None => None,
        }
    }
}

/// Before the first occurrence a character does not occur.
pub proof fn lemma_first_index(text: Seq<char>, wanted: char)
    ensures
        match first_index(text, wanted) {
            Some(index) => 0 <= index < text.len() && text[index] == wanted && (forall|i: int|
                0 <= i < index ==> text[i] != wanted),
            None => !text.contains(wanted),
        },
    decreases text.len(),
{
    if text.len() > 0 && text[0] != wanted {
        let rest = text.skip(1);
        lemma_first_index(rest, wanted);
        match first_index(rest, wanted) {
            Some(index) => {
                assert(text[index + 1] == rest[index]);
                assert forall|i: int| 0 <= i < index + 1 implies text[i] != wanted by {
                    if i > 0 {
                        assert(rest[i - 1] == text[i]);
                    }
                }
            },
            None => {
                assert forall|i: int| 0 <= i < text.len() implies text[i] != wanted by {
                    if i > 0 {
                        assert(rest[i - 1] == text[i]);
                        assert(rest.contains(rest[i - 1]));
                    }
                }
            },
        }
    }
}

/// An index with the character, and none before it, is the first index.
pub proof fn lemma_first_index_is(text: Seq<char>, wanted: char, index: int)
    requires
        0 <= index < text.len(),
        text[index] == wanted,
        forall|i: int| 0 <= i < index ==> text[i] != wanted,
    ensures
        first_index(text, wanted) == Some(index),
    decreases text.len(),
{
    if index > 0 {
        assert(text.skip(1)[index - 1] == text[index]);
        assert forall|i: int| 0 <= i < index - 1 implies text.skip(1)[i] != wanted by {
            assert(text.skip(1)[i] == text[i + 1]);
        }
        lemma_first_index_is(text.skip(1), wanted, index - 1);
    }
}

/// The index of the first `wanted` at or after `start`, or the length.
pub fn find_from(chars: &Vec<char>, start: usize, wanted: char) -> (index: usize)
    requires
        start <= chars@.len(),
    ensures
        start <= index <= chars@.len(),
        forall|i: int| start <= i < index ==> chars@[i] != wanted,
        index < chars@.len() ==> chars@[index as int] == wanted,
{
    let mut index: usize = start;
    while index < chars.len() && chars[index] != wanted
        invariant
            start <= index <= chars@.len(),
            forall|i: int| start <= i < index ==> chars@[i] != wanted,
        decreases chars@.len() - index,
    {
        index += 1;
    }
    index
}

/// Whether a text holds the character.
pub fn contains_char(text: &str, wanted: char) -> (found: bool)
    ensures
        found == text@.contains(wanted),
{
    let chars = to_chars(text);
    let index: usize = find_from(&chars, 0, wanted);
    assert(index < chars@.len() ==> chars@.contains(chars@[index as int]));
    index < chars.len()
}

/// Whether `text` begins with `prefix`.
pub open spec fn begins_with(text: Seq<char>, prefix: Seq<char>) -> bool {
    prefix.len() <= text.len() && text.take(prefix.len() as int) == prefix
}

/// Whether `text` begins with `prefix`.
pub fn starts_with(text: &Vec<char>, prefix: &str) -> (starts: bool)
    ensures
        starts == begins_with(text@, prefix@),
{
    let head = to_chars(prefix);
    if head.len() > text.len() {
        return false;
    }
    let mut index: usize = 0;
    while index < head.len()
        invariant
            index <= head@.len() <= text@.len(),
            head@ == prefix@,
            forall|i: int| 0 <= i < index ==> text@[i] == head@[i],
        decreases head@.len() - index,
    {
        if text[index] != head[index] {
            assert(text@.take(head@.len() as int)[index as int] != prefix@[index as int]);
            return false;
        }
        index += 1;
    }
    assert(text@.take(head@.len() as int) == prefix@);
    true
}

/// Unicode white space: the code points with the property `White_Space`.
pub open spec fn is_white_space(ch: char) -> bool {
    ||| '\u{9}' <= ch <= '\u{d}'
    ||| ch == '\u{20}'
    ||| ch == '\u{85}'
    ||| ch == '\u{a0}'
    ||| ch == '\u{1680}'
    ||| '\u{2000}' <= ch <= '\u{200a}'
    ||| ch == '\u{2028}'
    ||| ch == '\u{2029}'
    ||| ch == '\u{202f}'
    ||| ch == '\u{205f}'
    ||| ch == '\u{3000}'
}

/// Whether a character is Unicode white space.
pub fn white_space(ch: char) -> (is: bool)
    ensures
        is == is_white_space(ch),
{
    ('\u{9}' <= ch && ch <= '\u{d}') || ch == '\u{20}' || ch == '\u{85}' || ch == '\u{a0}' || ch
        == '\u{1680}' || ('\u{2000}' <= ch && ch <= '\u{200a}') || ch == '\u{2028}' || ch
        == '\u{2029}' || ch == '\u{202f}' || ch == '\u{205f}' || ch == '\u{3000}'
}

/// A text without its leading white space.
pub open spec fn trimmed_start(text: Seq<char>) -> Seq<char>
    decreases text.len(),
{
    if text.len() > 0 && is_white_space(text[0]) {
        trimmed_start(text.skip(1))
    } else {
        text
    }
}

/// A text without its trailing white space.
pub open spec fn trimmed_end(text: Seq<char>) -> Seq<char>
    decreases text.len(),
{
    if text.len() > 0 && is_white_space(text.last()) {
        trimmed_end(text.drop_last())
    } else {
        text
    }
}

/// A text without white space at either end.
pub open spec fn trimmed(text: Seq<char>) -> Seq<char> {
    trimmed_end(trimmed_start(text))
}

/// Trimming takes white space away at both ends and nothing else: what is left is a part of
/// the text with only white space around it, and neither begins nor ends with any.
pub proof fn trimming_takes_white_space_only(text: Seq<char>)
    ensures
        exists|start: int, end: int|
            0 <= start <= end <= text.len() && trimmed(text) == #[trigger] text.subrange(start, end)
                && (forall|i: int|
                0 <= i < start || end <= i < text.len() ==> is_white_space(#[trigger] text[i])),
        trimmed(text).len() > 0 ==> !is_white_space(trimmed(text)[0]) && !is_white_space(
            trimmed(text).last(),
        ),
{
    let start = lemma_trimmed_start(text);
    let rest = text.skip(start);
    let length = lemma_trimmed_end(rest);
    let end = start + length;
    assert(trimmed(text) =~= text.subrange(start, end));
    assert forall|i: int| 0 <= i < start || end <= i < text.len() implies is_white_space(
        #[trigger] text[i],
    ) by {
        if end <= i {
            assert(rest[i - start] == text[i]);
        }
    }
    if trimmed(text).len() > 0 {
        assert(trimmed(text)[0] == rest[0]);
    }
}

proof fn lemma_trimmed_start(text: Seq<char>) -> (start: int)
    ensures
        0 <= start <= text.len(),
        trimmed_start(text) == text.skip(start),
        forall|i: int| 0 <= i < start ==> is_white_space(#[trigger] text[i]),
        start < text.len() ==> !is_white_space(text[start]),
    decreases text.len(),
{
    if text.len() > 0 && is_white_space(text[0]) {
        let rest = text.skip(1);
        let inner = lemma_trimmed_start(rest);
        assert(rest.skip(inner) =~= text.skip(inner + 1));
        assert forall|i: int| 0 <= i < inner + 1 implies is_white_space(#[trigger] text[i]) by {
            if i > 0 {
                assert(rest[i - 1] == text[i]);
            }
        }
        inner + 1
    } else {
        assert(text.skip(0) == text);
        0
    }
}

proof fn lemma_trimmed_end(text: Seq<char>) -> (length: int)
    ensures
        0 <= length <= text.len(),
        trimmed_end(text) == text.take(length),
        forall|i: int| length <= i < text.len() ==> is_white_space(#[trigger] text[i]),
        length > 0 ==> !is_white_space(text[length - 1]),
    decreases text.len(),
{
    if text.len() > 0 && is_white_space(text.last()) {
        let rest = text.drop_last();
        let length = lemma_trimmed_end(rest);
        assert(rest.take(length) =~= text.take(length));
        assert forall|i: int| length <= i < text.len() implies is_white_space(#[trigger] text[i]) by {
            if i < rest.len() {
                assert(rest[i] == text[i]);
            }
        }
        length
    } else {
        assert(text.take(text.len() as int) == text);
        text.len() as int
    }
}

/// A letter of ASCII in lower case is one of the small letters, 32 places behind the
/// capital; lowering twice is lowering once, and any other character stays as it is.
pub proof fn lowering_changes_capitals_only(text: Seq<char>, index: int)
    requires
        0 <= index < text.len(),
    ensures
        ascii_lowered(text).len() == text.len(),
        'A' <= text[index] <= 'Z' ==> ascii_lowered(text)[index] as u32 == text[index] as u32 + 32,
        !('A' <= text[index] <= 'Z') ==> ascii_lowered(text)[index] == text[index],
        ascii_lowered(ascii_lowered(text)) == ascii_lowered(text),
{
    assert(ascii_lowered(ascii_lowered(text)) =~= ascii_lowered(text));
}

/// The part of `chars` from `start` up to `end` that is left when white space
/// is dropped at both ends, as a pair of bounds.
pub fn trim_bounds(chars: &Vec<char>, start: usize, end: usize) -> (bounds: (usize, usize))
    requires
        start <= end <= chars@.len(),
    ensures
        start <= bounds.0 <= bounds.1 <= end,
        chars@.subrange(bounds.0 as int, bounds.1 as int) == trimmed(
            chars@.subrange(start as int, end as int),
        ),
{
    let mut first: usize = start;
    while first < end && white_space(chars[first])
        invariant
            start <= first <= end <= chars@.len(),
            trimmed_start(chars@.subrange(start as int, end as int)) == trimmed_start(
                chars@.subrange(first as int, end as int),
            ),
        decreases end - first,
    {
        assert(chars@.subrange(first as int, end as int).skip(1) == chars@.subrange(
            first + 1,
            end as int,
        ));
        first += 1;
    }
    let ghost inner = chars@.subrange(first as int, end as int);
    let mut last: usize = end;
    while first < last && white_space(chars[last - 1])
        invariant
            start <= first <= last <= end <= chars@.len(),
            trimmed_end(inner) == trimmed_end(chars@.subrange(first as int, last as int)),
        decreases last - first,
    {
        assert(chars@.subrange(first as int, last as int).drop_last() == chars@.subrange(
            first as int,
            last - 1,
        ));
        last -= 1;
    }
    (first, last)
}

/// A text without white space at either end.
pub fn trim(text: &str) -> (trim: String)
    ensures
        trim@ == trimmed(text@),
{
    let chars = to_chars(text);
    assert(chars@.subrange(0, chars@.len() as int) == chars@);
    let (start, end) = trim_bounds(&chars, 0, chars.len());
    text_from(&chars, start, end)
}

/// An ASCII letter in lower case; any other character as it is.
pub open spec fn ascii_lower(ch: char) -> char {
    if 'A' <= ch <= 'Z' {
        (ch as u32 + 32) as char
    } else {
        ch
    }
}

/// A text with its ASCII letters in lower case.
pub open spec fn ascii_lowered(text: Seq<char>) -> Seq<char> {
    text.map_values(|ch: char| ascii_lower(ch))
}

/// An ASCII letter in lower case; any other character as it is.
pub fn lower_char(ch: char) -> (lower: char)
    ensures
        lower == ascii_lower(ch),
{
    if 'A' <= ch && ch <= 'Z' {
        (ch as u8 + 32) as char
    } else {
        ch
    }
}

/// A text with its ASCII letters in lower case.
pub fn lower_text(text: &str) -> (lower: String)
    ensures
        lower@ == ascii_lowered(text@),
{
    let chars = to_chars(text);
    let mut lower = String::new();
    let mut index: usize = 0;
    while index < chars.len()
        invariant
            index <= chars@.len(),
            chars@ == text@,
            lower@ == ascii_lowered(text@.take(index as int)),
        decreases chars@.len() - index,
    {
        lower.push(lower_char(chars[index]));
        index += 1;
        assert(lower@ == ascii_lowered(text@.take(index as int)));
    }
    assert(text@.take(index as int) == text@);
    lower
}

/// White space is what separates words and lines: spaces of every width, tabs and line breaks.
/// No character that shows anything in ASCII is among it.
pub proof fn visible_characters_are_no_white_space(ch: char)
    ensures
        '!' <= ch <= '~' ==> !is_white_space(ch),
        '\t' <= ch <= '\r' ==> is_white_space(ch),
        ch == ' ' || ch == '\u{85}' || ch == '\u{a0}' || ch == '\u{1680}' ==> is_white_space(ch),
        '\u{2000}' <= ch <= '\u{200a}' ==> is_white_space(ch),
        ch == '\u{2028}' || ch == '\u{2029}' || ch == '\u{202f}' || ch == '\u{205f}' || ch
            == '\u{3000}' ==> is_white_space(ch),
        is_white_space(ch) && ch <= '\u{7f}' ==> '\t' <= ch <= '\r' || ch == ' ',
{
}

} // verus!
