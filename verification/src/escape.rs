//! Text inside of other formats: tab-separated cells, HTML and XML.

use vstd::prelude::*;

use crate::text::{begins_with, to_chars};

verus! {

/// A text with every character replaced by another text.
pub open spec fn replaced(text: Seq<char>, replacement: spec_fn(char) -> Seq<char>) -> Seq<char>
    decreases text.len(),
{
    if text.len() == 0 {
        Seq::empty()
    } else {
        replaced(text.drop_last(), replacement) + replacement(text.last())
    }
}

/// A character inside a tab-separated cell: a separator becomes a space.
pub open spec fn clipboard_char(ch: char) -> Seq<char> {
    if ch == '\t' || ch == '\n' || ch == '\r' {
        seq![' ']
    } else {
        seq![ch]
    }
}

/// A character inside XML text.
pub open spec fn xml_text_char(ch: char) -> Seq<char> {
    if ch == '&' {
        "&amp;"@
    } else if ch == '<' {
        "&lt;"@
    } else if ch == '>' {
        "&gt;"@
    } else {
        seq![ch]
    }
}

/// A character inside an XML attribute in double quotes.
pub open spec fn xml_attr_char(ch: char) -> Seq<char> {
    if ch == '"' {
        "&quot;"@
    } else {
        xml_text_char(ch)
    }
}

/// A character inside HTML.
pub open spec fn html_char(ch: char) -> Seq<char> {
    if ch == '\'' {
        "&#39;"@
    } else {
        xml_attr_char(ch)
    }
}

/// The content of a tab-separated cell.
pub open spec fn clipboard_text(text: Seq<char>) -> Seq<char> {
    replaced(text, |ch: char| clipboard_char(ch))
}

/// A text inside XML.
pub open spec fn escaped_xml_text(text: Seq<char>) -> Seq<char> {
    replaced(text, |ch: char| xml_text_char(ch))
}

/// A text inside an XML attribute.
pub open spec fn escaped_xml_attr(text: Seq<char>) -> Seq<char> {
    replaced(text, |ch: char| xml_attr_char(ch))
}

/// A text inside HTML.
pub open spec fn html_text(text: Seq<char>) -> Seq<char> {
    replaced(text, |ch: char| html_char(ch))
}

/// Appends the content of a tab-separated cell.
pub fn append_clipboard_cell(output: &mut String, value: &str)
    ensures
        final(output)@ == old(output)@ + clipboard_text(value@),
{
    let chars = to_chars(value);
    let ghost before = output@;
    let mut index: usize = 0;
    while index < chars.len()
        invariant
            index <= chars@.len(),
            chars@ == value@,
            output@ == before + clipboard_text(value@.take(index as int)),
        decreases chars@.len() - index,
    {
        assert(value@.take(index + 1).drop_last() == value@.take(index as int));
        let ch = chars[index];
        if ch == '\t' || ch == '\n' || ch == '\r' {
            output.push(' ');
        } else {
            output.push(ch);
        }
        index += 1;
    }
    assert(value@.take(index as int) == value@);
}

/// Appends a text inside HTML.
pub fn append_html_text(output: &mut String, value: &str)
    ensures
        final(output)@ == old(output)@ + html_text(value@),
{
    let chars = to_chars(value);
    let ghost before = output@;
    let mut index: usize = 0;
    while index < chars.len()
        invariant
            index <= chars@.len(),
            chars@ == value@,
            output@ == before + html_text(value@.take(index as int)),
        decreases chars@.len() - index,
    {
        assert(value@.take(index + 1).drop_last() == value@.take(index as int));
        let ch = chars[index];
        if ch == '&' {
            output.push_str("&amp;");
        } else if ch == '<' {
            output.push_str("&lt;");
        } else if ch == '>' {
            output.push_str("&gt;");
        } else if ch == '"' {
            output.push_str("&quot;");
        } else if ch == '\'' {
            output.push_str("&#39;");
        } else {
            output.push(ch);
        }
        index += 1;
    }
    assert(value@.take(index as int) == value@);
}

/// Appends a text inside XML.
pub fn append_xml_text(output: &mut String, value: &str)
    ensures
        final(output)@ == old(output)@ + escaped_xml_text(value@),
{
    let chars = to_chars(value);
    let ghost before = output@;
    let mut index: usize = 0;
    while index < chars.len()
        invariant
            index <= chars@.len(),
            chars@ == value@,
            output@ == before + escaped_xml_text(value@.take(index as int)),
        decreases chars@.len() - index,
    {
        assert(value@.take(index + 1).drop_last() == value@.take(index as int));
        let ch = chars[index];
        if ch == '&' {
            output.push_str("&amp;");
        } else if ch == '<' {
            output.push_str("&lt;");
        } else if ch == '>' {
            output.push_str("&gt;");
        } else {
            output.push(ch);
        }
        index += 1;
    }
    assert(value@.take(index as int) == value@);
}

/// Appends a text inside an XML attribute in double quotes.
pub fn append_xml_attr(output: &mut String, value: &str)
    ensures
        final(output)@ == old(output)@ + escaped_xml_attr(value@),
{
    let chars = to_chars(value);
    let ghost before = output@;
    let mut index: usize = 0;
    while index < chars.len()
        invariant
            index <= chars@.len(),
            chars@ == value@,
            output@ == before + escaped_xml_attr(value@.take(index as int)),
        decreases chars@.len() - index,
    {
        assert(value@.take(index + 1).drop_last() == value@.take(index as int));
        let ch = chars[index];
        if ch == '&' {
            output.push_str("&amp;");
        } else if ch == '<' {
            output.push_str("&lt;");
        } else if ch == '>' {
            output.push_str("&gt;");
        } else if ch == '"' {
            output.push_str("&quot;");
        } else {
            output.push(ch);
        }
        index += 1;
    }
    assert(value@.take(index as int) == value@);
}

/// A text escaped to stand between two tags.
pub fn xml_text(value: &str) -> (text: String)
    ensures
        text@ == escaped_xml_text(value@),
{
    let mut output = String::new();
    append_xml_text(&mut output, value);
    output
}

/// A text escaped to stand in a quoted attribute.
pub fn xml_attr(value: &str) -> (text: String)
    ensures
        text@ == escaped_xml_attr(value@),
{
    let mut output = String::new();
    append_xml_attr(&mut output, value);
    output
}

/// The first character or entity of a text: the character that it stands for and
/// how many characters it takes.
pub open spec fn first_entity(text: Seq<char>) -> (char, int) {
    if begins_with(text, "&amp;"@) {
        ('&', 5)
    } else if begins_with(text, "&lt;"@) {
        ('<', 4)
    } else if begins_with(text, "&gt;"@) {
        ('>', 4)
    } else if begins_with(text, "&quot;"@) {
        ('"', 6)
    } else if begins_with(text, "&#39;"@) {
        ('\'', 5)
    } else {
        (text[0], 1)
    }
}

/// A text with its entities resolved.
pub open spec fn unescaped(text: Seq<char>) -> Seq<char>
    decreases text.len(),
{
    if text.len() == 0 {
        Seq::empty()
    } else {
        let (ch, length) = first_entity(text);
        if 0 < length <= text.len() {
            seq![ch] + unescaped(text.skip(length))
        } else {
            text
        }
    }
}

/// Replacing character by character works from the front too.
proof fn lemma_replaced_front(text: Seq<char>, replacement: spec_fn(char) -> Seq<char>)
    requires
        text.len() > 0,
    ensures
        replaced(text, replacement) == replacement(text[0]) + replaced(text.skip(1), replacement),
    decreases text.len(),
{
    if text.len() == 1 {
        assert(text.drop_last() == Seq::<char>::empty());
        assert(text.skip(1) == Seq::<char>::empty());
        assert(replaced(text.drop_last(), replacement) == Seq::<char>::empty());
        assert(replaced(text.skip(1), replacement) == Seq::<char>::empty());
    } else {
        lemma_replaced_front(text.drop_last(), replacement);
        assert(text.drop_last().skip(1) == text.skip(1).drop_last());
        assert(text.skip(1).last() == text.last());
    }
}

/// An escaped character stands for itself, whatever follows.
proof fn lemma_entity_of_char(ch: char, escaped: Seq<char>, rest: Seq<char>)
    requires
        escaped == html_char(ch) || escaped == xml_attr_char(ch) || escaped == xml_text_char(ch),
    ensures
        escaped.len() > 0,
        first_entity(escaped + rest) == (ch, escaped.len() as int),
{
    reveal_strlit("&amp;");
    reveal_strlit("&lt;");
    reveal_strlit("&gt;");
    reveal_strlit("&quot;");
    reveal_strlit("&#39;");
    let text = escaped + rest;
    assert(text.take(escaped.len() as int) == escaped);
    assert(text[0] == escaped[0]);
    if escaped.len() > 1 {
        assert(text[1] == escaped[1]);
        if begins_with(text, "&amp;"@) {
            assert(text.take(5)[1] == text[1]);
        }
        if begins_with(text, "&lt;"@) {
            assert(text.take(4)[1] == text[1]);
        }
        if begins_with(text, "&gt;"@) {
            assert(text.take(4)[1] == text[1]);
        }
        if begins_with(text, "&quot;"@) {
            assert(text.take(6)[1] == text[1]);
        }
        if begins_with(text, "&#39;"@) {
            assert(text.take(5)[1] == text[1]);
        }
    } else {
        assert(text[0] == ch && ch != '&');
        if begins_with(text, "&amp;"@) {
            assert(text.take(5)[0] == text[0]);
        }
        if begins_with(text, "&lt;"@) {
            assert(text.take(4)[0] == text[0]);
        }
        if begins_with(text, "&gt;"@) {
            assert(text.take(4)[0] == text[0]);
        }
        if begins_with(text, "&quot;"@) {
            assert(text.take(6)[0] == text[0]);
        }
        if begins_with(text, "&#39;"@) {
            assert(text.take(5)[0] == text[0]);
        }
    }
}

proof fn lemma_unescaped(text: Seq<char>, replacement: spec_fn(char) -> Seq<char>)
    requires
        forall|ch: char|
            #[trigger] replacement(ch) == html_char(ch) || replacement(ch) == xml_attr_char(ch)
                || replacement(ch) == xml_text_char(ch),
    ensures
        unescaped(replaced(text, replacement)) == text,
    decreases text.len(),
{
    if text.len() > 0 {
        let first = replacement(text[0]);
        let rest = replaced(text.skip(1), replacement);
        lemma_replaced_front(text, replacement);
        lemma_entity_of_char(text[0], first, rest);
        lemma_unescaped(text.skip(1), replacement);
        assert((first + rest).skip(first.len() as int) == rest);
        assert(seq![text[0]] + text.skip(1) == text);
    }
}

/// Resolving the entities of an escaped text gives the text back, in XML text,
/// in XML attributes and in HTML.
pub proof fn escaping_is_undone_by_reading(text: Seq<char>)
    ensures
        unescaped(escaped_xml_text(text)) == text,
        unescaped(escaped_xml_attr(text)) == text,
        unescaped(html_text(text)) == text,
{
    lemma_unescaped(text, |ch: char| xml_text_char(ch));
    lemma_unescaped(text, |ch: char| xml_attr_char(ch));
    lemma_unescaped(text, |ch: char| html_char(ch));
}

proof fn lemma_replaced_avoids(
    text: Seq<char>,
    replacement: spec_fn(char) -> Seq<char>,
    avoided: char,
)
    requires
        forall|ch: char| !(#[trigger] replacement(ch)).contains(avoided),
    ensures
        !replaced(text, replacement).contains(avoided),
    decreases text.len(),
{
    if text.len() > 0 {
        let head = replaced(text.drop_last(), replacement);
        let tail = replacement(text.last());
        lemma_replaced_avoids(text.drop_last(), replacement, avoided);
        assert forall|i: int| 0 <= i < (head + tail).len() implies (head + tail)[i] != avoided by {
            if i < head.len() {
                assert(head.contains(head[i]));
            } else {
                assert(tail.contains(tail[i - head.len()]));
            }
        }
    }
}

/// An escaped text holds none of the characters that would end the place it
/// stands in.
pub proof fn escaped_text_stays_in_place(text: Seq<char>)
    ensures
        !escaped_xml_text(text).contains('<'),
        !escaped_xml_text(text).contains('>'),
        !escaped_xml_attr(text).contains('<'),
        !escaped_xml_attr(text).contains('"'),
        !html_text(text).contains('<'),
        !html_text(text).contains('>'),
        !html_text(text).contains('"'),
        !html_text(text).contains('\''),
{
    reveal_strlit("&amp;");
    reveal_strlit("&lt;");
    reveal_strlit("&gt;");
    reveal_strlit("&quot;");
    reveal_strlit("&#39;");
    lemma_replaced_avoids(text, |ch: char| xml_text_char(ch), '<');
    lemma_replaced_avoids(text, |ch: char| xml_text_char(ch), '>');
    lemma_replaced_avoids(text, |ch: char| xml_attr_char(ch), '<');
    lemma_replaced_avoids(text, |ch: char| xml_attr_char(ch), '"');
    lemma_replaced_avoids(text, |ch: char| html_char(ch), '<');
    lemma_replaced_avoids(text, |ch: char| html_char(ch), '>');
    lemma_replaced_avoids(text, |ch: char| html_char(ch), '"');
    lemma_replaced_avoids(text, |ch: char| html_char(ch), '\'');
}

/// Replacing the characters of a joined text is joining what they are replaced by.
proof fn lemma_replaced_joined(
    first: Seq<char>,
    second: Seq<char>,
    replacement: spec_fn(char) -> Seq<char>,
)
    ensures
        replaced(first + second, replacement) == replaced(first, replacement) + replaced(
            second,
            replacement,
        ),
    decreases second.len(),
{
    if second.len() == 0 {
        assert(first + second == first);
        assert(replaced(second, replacement) == Seq::<char>::empty());
    } else {
        lemma_replaced_joined(first, second.drop_last(), replacement);
        assert((first + second).drop_last() == first + second.drop_last());
    }
}

/// Escaping a joined text is joining the escaped texts, so that texts may be appended one
/// by one, and reading both gives the joined text back.
pub proof fn escaped_texts_join(first: Seq<char>, second: Seq<char>)
    ensures
        escaped_xml_text(first + second) == escaped_xml_text(first) + escaped_xml_text(second),
        escaped_xml_attr(first + second) == escaped_xml_attr(first) + escaped_xml_attr(second),
        html_text(first + second) == html_text(first) + html_text(second),
        clipboard_text(first + second) == clipboard_text(first) + clipboard_text(second),
        unescaped(escaped_xml_text(first) + escaped_xml_text(second)) == first + second,
{
    lemma_replaced_joined(first, second, |ch: char| xml_text_char(ch));
    lemma_replaced_joined(first, second, |ch: char| xml_attr_char(ch));
    lemma_replaced_joined(first, second, |ch: char| html_char(ch));
    lemma_replaced_joined(first, second, |ch: char| clipboard_char(ch));
    escaping_is_undone_by_reading(first + second);
}

/// Whether an entity of XML text begins at an index.
pub open spec fn entity_begins(text: Seq<char>, index: int) -> bool {
    let rest = text.skip(index);
    begins_with(rest, "&amp;"@) || begins_with(rest, "&lt;"@) || begins_with(rest, "&gt;"@)
}

/// Every ampersand of an escaped text begins an entity.
pub proof fn ampersands_begin_entities(text: Seq<char>, index: int)
    requires
        0 <= index < escaped_xml_text(text).len(),
        escaped_xml_text(text)[index] == '&',
    ensures
        entity_begins(escaped_xml_text(text), index),
    decreases text.len(),
{
    reveal_strlit("&amp;");
    reveal_strlit("&lt;");
    reveal_strlit("&gt;");
    let first = xml_text_char(text[0]);
    let rest = escaped_xml_text(text.skip(1));
    let whole = escaped_xml_text(text);
    lemma_replaced_front(text, |ch: char| xml_text_char(ch));
    assert(whole == first + rest);
    if index < first.len() {
        assert(whole[index] == first[index]);
        assert(whole.skip(0) == whole);
        assert(whole.take(first.len() as int) == first);
    } else {
        ampersands_begin_entities(text.skip(1), index - first.len());
        assert(whole.skip(index) == rest.skip(index - first.len()));
    }
}

/// Escaping XML text keeps every character but the ampersand and the angle brackets,
/// quotation marks among them.
pub proof fn other_characters_are_kept(text: Seq<char>)
    requires
        !text.contains('&'),
        !text.contains('<'),
        !text.contains('>'),
    ensures
        escaped_xml_text(text) == text,
    decreases text.len(),
{
    if text.len() > 0 {
        let shorter = text.drop_last();
        assert forall|ch: char| shorter.contains(ch) implies text.contains(ch) by {
            let i = choose|i: int| 0 <= i < shorter.len() && shorter[i] == ch;
            assert(text[i] == ch);
        }
        assert(text.contains(text.last()));
        other_characters_are_kept(shorter);
        assert(shorter.push(text.last()) == text);
    }
}

/// Copying a cell puts a space in place of each tab and each line break, and keeps every other
/// character where it is.
pub proof fn copied_characters_stay_in_place(text: Seq<char>, index: int)
    requires
        0 <= index < text.len(),
    ensures
        clipboard_text(text).len() == text.len(),
        text[index] == '\t' || text[index] == '\n' || text[index] == '\r' ==> clipboard_text(
            text,
        )[index] == ' ',
        text[index] != '\t' && text[index] != '\n' && text[index] != '\r' ==> clipboard_text(
            text,
        )[index] == text[index],
    decreases text.len(),
{
    clipboard_cells_hold_no_separators(text);
    clipboard_cells_hold_no_separators(text.drop_last());
    if index < text.len() - 1 {
        copied_characters_stay_in_place(text.drop_last(), index);
        assert(text.drop_last()[index] == text[index]);
        assert(clipboard_text(text)[index] == clipboard_text(text.drop_last())[index]);
    } else {
        assert(text.last() == text[index]);
    }
}

/// The content of a tab-separated cell is as long as the cell's text and holds
/// neither a tab nor a line break.
pub proof fn clipboard_cells_hold_no_separators(text: Seq<char>)
    ensures
        clipboard_text(text).len() == text.len(),
        !clipboard_text(text).contains('\t'),
        !clipboard_text(text).contains('\n'),
        !clipboard_text(text).contains('\r'),
    decreases text.len(),
{
    lemma_replaced_avoids(text, |ch: char| clipboard_char(ch), '\t');
    lemma_replaced_avoids(text, |ch: char| clipboard_char(ch), '\n');
    lemma_replaced_avoids(text, |ch: char| clipboard_char(ch), '\r');
    if text.len() > 0 {
        clipboard_cells_hold_no_separators(text.drop_last());
    }
}

} // verus!
