//! The pairs of keys and values in the raw text of a tag's attributes.
//!
//! They are read up to the last one that is wanted, so that nothing is said of what
//! stands behind it.

use vstd::prelude::*;

use crate::package::{find_last, last_value, pairs_view};
use crate::text::{
    find_from, first_index, lemma_first_index, lemma_first_index_is, same_text, text_from, to_chars,
};

verus! {

/// Whether a character is white space of ASCII.
pub open spec fn is_ascii_space(ch: char) -> bool {
    ch == ' ' || ch == '\t' || ch == '\n' || ch == '\x0c' || ch == '\r'
}

/// How much white space a text begins with.
pub open spec fn leading_spaces(text: Seq<char>) -> nat
    decreases text.len(),
{
    if text.len() > 0 && is_ascii_space(text[0]) {
        1 + leading_spaces(text.skip(1))
    } else {
        0
    }
}

/// A text without the white space that it ends with.
pub open spec fn without_end_spaces(text: Seq<char>) -> Seq<char>
    decreases text.len(),
{
    if text.len() > 0 && is_ascii_space(text.last()) {
        without_end_spaces(text.drop_last())
    } else {
        text
    }
}

/// What the attributes of a tag begin with.
#[verifier::ext_equal]
pub enum FirstPair {
    /// Nothing but white space.
    Nothing,
    /// A key without a value in quotation marks.
    Malformed,
    Pair { key: Seq<char>, value: Seq<char>, rest: Seq<char> },
}

/// The value in quotation marks that a text begins with, behind white space, and what
/// follows it. A value without its end is all that follows.
pub open spec fn first_quoted(text: Seq<char>) -> Option<(Seq<char>, Seq<char>)> {
    let quoted = text.skip(leading_spaces(text) as int);
    if quoted.len() == 0 || (quoted[0] != '"' && quoted[0] != '\'') {
        None
    } else {
        let value_on = quoted.skip(1);
        match first_index(value_on, quoted[0]) {
            Some(end) => Some((value_on.take(end), value_on.skip(end + 1))),
            None => Some((value_on, Seq::empty())),
        }
    }
}

/// The pair that the attributes of a tag begin with: a key, an equals sign and a value in
/// quotation marks, with white space around them.
pub open spec fn first_pair(text: Seq<char>) -> FirstPair {
    let key_on = text.skip(leading_spaces(text) as int);
    if key_on.len() == 0 {
        FirstPair::Nothing
    } else {
        match first_index(key_on, '=') {
            None => FirstPair::Malformed,
            Some(equals) => {
                match first_quoted(key_on.skip(equals + 1)) {
                    None => FirstPair::Malformed,
                    Some((value, rest)) => FirstPair::Pair {
                        key: without_end_spaces(key_on.take(equals)),
                        value,
                        rest,
                    },
                }
            },
        }
    }
}

proof fn lemma_leading_spaces(text: Seq<char>)
    ensures
        leading_spaces(text) <= text.len(),
    decreases text.len(),
{
    if text.len() > 0 {
        lemma_leading_spaces(text.skip(1));
    }
}

/// What follows a pair is shorter.
proof fn lemma_rest_is_shorter(text: Seq<char>)
    ensures
        first_pair(text) matches FirstPair::Pair { key, value, rest } ==> rest.len() < text.len(),
{
    lemma_leading_spaces(text);
    let key_on = text.skip(leading_spaces(text) as int);
    lemma_first_index(key_on, '=');
    if let Some(equals) = first_index(key_on, '=') {
        let behind = key_on.skip(equals + 1);
        lemma_leading_spaces(behind);
        let quoted = behind.skip(leading_spaces(behind) as int);
        if quoted.len() > 0 {
            lemma_first_index(quoted.skip(1), quoted[0]);
        }
    }
}

/// The pairs that are met until as many of the wanted keys were as are left, or `None`
/// where something malformed is met before.
pub open spec fn pairs_met(text: Seq<char>, keys: Seq<Seq<char>>, left: nat) -> Option<
    Seq<(Seq<char>, Seq<char>)>,
>
    decreases text.len() via pairs_met_shrinks
{
    if left == 0 {
        Some(Seq::empty())
    } else {
        match first_pair(text) {
            FirstPair::Nothing => Some(Seq::empty()),
            FirstPair::Malformed => None,
            FirstPair::Pair { key, value, rest } => {
                let next = if keys.contains(key) {
                    (left - 1) as nat
                } else {
                    left
                };
                match pairs_met(rest, keys, next) {
                    None => None,
                    Some(more) => Some(seq![(key, value)] + more),
                }
            },
        }
    }
}

#[via_fn]
proof fn pairs_met_shrinks(text: Seq<char>, keys: Seq<Seq<char>>, left: nat) {
    lemma_rest_is_shorter(text);
}

/// The value of a key among the wanted keys, each of which is looked for once; the last
/// that is met counts.
pub open spec fn met_value(text: Seq<char>, keys: Seq<Seq<char>>, key: Seq<char>) -> Option<
    Seq<char>,
> {
    match pairs_met(text, keys, keys.len()) {
        Some(pairs) => last_value(pairs, key),
        None => None,
    }
}

/// The contents of keys.
pub open spec fn keys_view(keys: Seq<&str>) -> Seq<Seq<char>> {
    keys.map_values(|key: &str| key@)
}

/// Whether a character is white space of ASCII.
fn is_space(ch: char) -> (is: bool)
    ensures
        is == is_ascii_space(ch),
{
    ch == ' ' || ch == '\t' || ch == '\n' || ch == '\x0c' || ch == '\r'
}

/// Where the white space at `start` ends.
fn behind_spaces(chars: &Vec<char>, start: usize) -> (end: usize)
    requires
        start <= chars@.len(),
    ensures
        start <= end <= chars@.len(),
        end == start + leading_spaces(chars@.skip(start as int)),
{
    let mut index: usize = start;
    while index < chars.len() && is_space(chars[index])
        invariant
            start <= index <= chars@.len(),
            index + leading_spaces(chars@.skip(index as int)) == start + leading_spaces(
                chars@.skip(start as int),
            ),
        decreases chars@.len() - index,
    {
        assert(chars@.skip(index as int).skip(1) == chars@.skip(index + 1));
        index += 1;
    }
    index
}

/// The part of `chars` from `start` up to `end`, without the white space that it ends with.
fn text_before_spaces(chars: &Vec<char>, start: usize, end: usize) -> (text: String)
    requires
        start <= end <= chars@.len(),
    ensures
        text@ == without_end_spaces(chars@.subrange(start as int, end as int)),
{
    let mut last: usize = end;
    while last > start && is_space(chars[last - 1])
        invariant
            start <= last <= end <= chars@.len(),
            without_end_spaces(chars@.subrange(start as int, end as int)) == without_end_spaces(
                chars@.subrange(start as int, last as int),
            ),
        decreases last,
    {
        assert(chars@.subrange(start as int, last as int).drop_last() == chars@.subrange(
            start as int,
            last - 1,
        ));
        last -= 1;
    }
    text_from(chars, start, last)
}

/// Reads the value in quotation marks at `start`.
fn read_quoted(chars: &Vec<char>, start: usize) -> (read: Option<(String, usize)>)
    requires
        start <= chars@.len(),
    ensures
        match read {
            None => first_quoted(chars@.skip(start as int)) is None,
            Some((value, next)) => start <= next <= chars@.len() && first_quoted(
                chars@.skip(start as int),
            ) == Some((value@, chars@.skip(next as int))),
        },
{
    let ghost text = chars@.skip(start as int);
    let quote: usize = behind_spaces(chars, start);
    let ghost quoted = text.skip(leading_spaces(text) as int);
    assert(quoted == chars@.skip(quote as int));
    if quote == chars.len() || (chars[quote] != '"' && chars[quote] != '\'') {
        return None;
    }
    let end: usize = find_from(chars, quote + 1, chars[quote]);
    let value = text_from(chars, quote + 1, end);
    let ghost value_on = quoted.skip(1);
    assert(value_on == chars@.skip(quote + 1));
    proof {
        lemma_first_index(value_on, quoted[0]);
        if end < chars@.len() {
            lemma_first_index_is(value_on, quoted[0], end - quote - 1);
        }
    }
    if end < chars.len() {
        assert(value_on.take(end - quote - 1) == value@);
        assert(value_on.skip(end - quote) == chars@.skip(end + 1));
        Some((value, end + 1))
    } else {
        assert(value_on == value@);
        assert(chars@.skip(end as int) == Seq::<char>::empty());
        Some((value, end))
    }
}

/// What the attributes of a tag begin with, and where it ends.
enum PairRead {
    Nothing,
    Malformed,
    Pair(String, String, usize),
}

/// Reads the pair at `start`.
fn read_pair(chars: &Vec<char>, start: usize) -> (read: PairRead)
    requires
        start <= chars@.len(),
    ensures
        match read {
            PairRead::Nothing => first_pair(chars@.skip(start as int)) is Nothing,
            PairRead::Malformed => first_pair(chars@.skip(start as int)) is Malformed,
            PairRead::Pair(key, value, next) => start < next <= chars@.len() && first_pair(
                chars@.skip(start as int),
            ) == (FirstPair::Pair { key: key@, value: value@, rest: chars@.skip(next as int) }),
        },
{
    let ghost text = chars@.skip(start as int);
    let key_start: usize = behind_spaces(chars, start);
    let ghost key_on = text.skip(leading_spaces(text) as int);
    assert(key_on == chars@.skip(key_start as int));
    if key_start == chars.len() {
        return PairRead::Nothing;
    }
    let equals: usize = find_from(chars, key_start, '=');
    proof {
        lemma_first_index(key_on, '=');
        if equals < chars@.len() {
            lemma_first_index_is(key_on, '=', equals - key_start);
        }
    }
    if equals == chars.len() {
        return PairRead::Malformed;
    }
    assert(key_on.skip(equals - key_start + 1) == chars@.skip(equals + 1));
    match read_quoted(chars, equals + 1) {
        None => PairRead::Malformed,
        Some((value, next)) => {
            let key = text_before_spaces(chars, key_start, equals);
            assert(chars@.subrange(key_start as int, equals as int) == key_on.take(
                equals - key_start,
            ));
            PairRead::Pair(key, value, next)
        },
    }
}

/// Whether a text is one of the keys.
fn is_wanted(keys: &Vec<&str>, key: &str) -> (wanted: bool)
    ensures
        wanted == keys_view(keys@).contains(key@),
{
    let mut index: usize = 0;
    while index < keys.len()
        invariant
            index <= keys@.len(),
            forall|i: int| 0 <= i < index ==> #[trigger] keys_view(keys@)[i] != key@,
        decreases keys@.len() - index,
    {
        assert(keys_view(keys@)[index as int] == keys@[index as int]@);
        if same_text(keys[index], key) {
            return true;
        }
        index += 1;
    }
    false
}

/// Reads pairs until as many of the wanted keys were met as are left.
pub fn read_pairs(text: &str, keys: &Vec<&str>, wanted: usize) -> (pairs: Option<
    Vec<(String, String)>,
>)
    ensures
        match pairs {
            Some(pairs) => pairs_met(text@, keys_view(keys@), wanted as nat) == Some(
                pairs_view(pairs@),
            ),
            None => pairs_met(text@, keys_view(keys@), wanted as nat) is None,
        },
{
    let chars = to_chars(text);
    let ghost all = pairs_met(text@, keys_view(keys@), wanted as nat);
    let mut pairs: Vec<(String, String)> = Vec::new();
    let mut left: usize = wanted;
    let mut index: usize = 0;
    assert(chars@.skip(0) == text@);
    assert(pairs_view(pairs@) == Seq::<(Seq<char>, Seq<char>)>::empty());
    proof {
        if let Some(rest) = all {
            assert(pairs_view(pairs@) + rest == rest);
        }
    }
    while left > 0
        invariant
            index <= chars@.len(),
            all == pairs_met(text@, keys_view(keys@), wanted as nat),
            match pairs_met(chars@.skip(index as int), keys_view(keys@), left as nat) {
                Some(rest) => all == Some(pairs_view(pairs@) + rest),
                None => all is None,
            },
        decreases chars@.len() - index + left,
    {
        let ghost before = pairs@;
        match read_pair(&chars, index) {
            PairRead::Nothing => {
                assert(pairs_view(pairs@) + Seq::<(Seq<char>, Seq<char>)>::empty() == pairs_view(
                    pairs@,
                ));
                return Some(pairs);
            },
            PairRead::Malformed => {
                return None;
            },
            PairRead::Pair(key, value, next) => {
                let ghost pair = (key@, value@);
                if is_wanted(keys, key.as_str()) {
                    left -= 1;
                }
                pairs.push((key, value));
                assert(pairs_view(pairs@) == pairs_view(before).push(pair));
                index = next;
                proof {
                    if let Some(rest) = pairs_met(
                        chars@.skip(index as int),
                        keys_view(keys@),
                        left as nat,
                    ) {
                        assert(pairs_view(before) + (seq![pair] + rest) == pairs_view(pairs@)
                            + rest);
                    }
                }
            },
        }
    }
    assert(pairs_view(pairs@) + Seq::<(Seq<char>, Seq<char>)>::empty() == pairs_view(pairs@));
    Some(pairs)
}

/// The value of a key among the wanted keys.
pub fn value_met(text: &str, keys: &Vec<&str>, key: &str) -> (value: Option<String>)
    ensures
        match value {
            Some(value) => met_value(text@, keys_view(keys@), key@) == Some(value@),
            None => met_value(text@, keys_view(keys@), key@) is None,
        },
{
    match read_pairs(text, keys, keys.len()) {
        None => None,
        Some(pairs) => match find_last(&pairs, key) {
            Some(value) => Some(value.clone()),
            None => None,
        },
    }
}

} // verus!
