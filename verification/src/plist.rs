//! The version numbers in the property list of the application's bundle.

use vstd::prelude::*;

use crate::text::{text_from, to_chars};

verus! {

/// Whether a pattern stands at a place in a text.
pub open spec fn stands_at(text: Seq<char>, pattern: Seq<char>, place: int) -> bool {
    0 <= place && place + pattern.len() <= text.len() && text.subrange(
        place,
        place + pattern.len(),
    ) == pattern
}

/// The first place at which a pattern stands in a text, from some place on.
pub open spec fn first_place(text: Seq<char>, pattern: Seq<char>, from: int) -> Option<int>
    decreases text.len() - from + 1,
{
    if from + pattern.len() > text.len() {
        None
    } else if stands_at(text, pattern, from) {
        Some(from)
    } else {
        first_place(text, pattern, from + 1)
    }
}

/// Whether a pattern stands at a place in a text.
fn pattern_at(text: &Vec<char>, pattern: &Vec<char>, place: usize) -> (stands: bool)
    requires
        place + pattern@.len() <= text@.len(),
    ensures
        stands == stands_at(text@, pattern@, place as int),
{
    let length: usize = text.len();
    let mut index: usize = 0;
    while index < pattern.len()
        invariant
            index <= pattern@.len(),
            place + pattern@.len() <= text@.len(),
            length == text@.len(),
            forall|i: int| 0 <= i < index ==> text@[place + i] == pattern@[i],
        decreases pattern@.len() - index,
    {
        if text[place + index] != pattern[index] {
            assert(text@.subrange(place as int, place + pattern@.len())[index as int]
                != pattern@[index as int]);
            return false;
        }
        index += 1;
    }
    assert(text@.subrange(place as int, place + pattern@.len()) =~= pattern@);
    true
}

/// The first place at which a pattern stands in a text, from some place on.
fn find_pattern(text: &Vec<char>, pattern: &str, from: usize) -> (place: Option<usize>)
    requires
        from <= text@.len(),
    ensures
        match place {
            Some(place) => first_place(text@, pattern@, from as int) == Some(place as int) && from
                <= place && place + pattern@.len() <= text@.len(),
            None => first_place(text@, pattern@, from as int) is None,
        },
{
    let wanted = to_chars(pattern);
    let mut place: usize = from;
    while text.len() - place >= wanted.len()
        invariant
            from <= place <= text@.len(),
            wanted@ == pattern@,
            first_place(text@, pattern@, from as int) == first_place(
                text@,
                pattern@,
                place as int,
            ),
        decreases text@.len() - place,
    {
        if pattern_at(text, &wanted, place) {
            return Some(place);
        }
        if place == text.len() {
            assert(text@.subrange(place as int, place as int) =~= pattern@);
            return None;
        }
        place += 1;
    }
    None
}

/// The element that announces a key.
pub open spec fn key_marker(key: Seq<char>) -> Seq<char> {
    "<key>"@ + key + "</key>"@
}

/// Where the value of a key begins and ends: it is the text of the first string
/// behind the key.
pub open spec fn value_bounds(plist: Seq<char>, key: Seq<char>) -> Option<(int, int)> {
    match first_place(plist, key_marker(key), 0) {
        Some(marker) => match first_place(
            plist,
            "<string>"@,
            marker + key_marker(key).len(),
        ) {
            Some(string) => {
                let start = string + "<string>"@.len();
                match first_place(plist, "</string>"@, start) {
                    Some(end) => Some((start, end)),
                    None => None,
                }
            },
            None => None,
        },
        None => None,
    }
}

/// The value of a key.
pub open spec fn value_of(plist: Seq<char>, key: Seq<char>) -> Option<Seq<char>> {
    match value_bounds(plist, key) {
        Some((start, end)) => Some(plist.subrange(start, end)),
        None => None,
    }
}

/// A property list with another value for a key, where it has one.
pub open spec fn with_value(plist: Seq<char>, key: Seq<char>, value: Seq<char>) -> Seq<char> {
    match value_bounds(plist, key) {
        Some((start, end)) => plist.take(start) + value + plist.skip(end),
        None => plist,
    }
}

/// A property list with another version.
pub open spec fn with_version(plist: Seq<char>, version: Seq<char>) -> Seq<char> {
    with_value(
        with_value(plist, "CFBundleVersion"@, version),
        "CFBundleShortVersionString"@,
        version,
    )
}

/// Puts another value for a key into a property list.
fn replace_value(plist: &str, key: &str, value: &str) -> (updated: String)
    ensures
        updated@ == with_value(plist@, key@, value@),
{
    let chars = to_chars(plist);
    let length: usize = chars.len();
    let mut marker = "<key>".to_owned();
    marker.push_str(key);
    marker.push_str("</key>");
    assert(marker@ == key_marker(key@));
    let marker_start: usize = match find_pattern(&chars, marker.as_str(), 0) {
        Some(place) => place,
        None => {
            return plist.to_owned();
        },
    };
    let after_marker: usize = marker_start + to_chars(marker.as_str()).len();
    let string_start: usize = match find_pattern(&chars, "<string>", after_marker) {
        Some(place) => place,
        None => {
            return plist.to_owned();
        },
    };
    let value_start: usize = string_start + to_chars("<string>").len();
    let value_end: usize = match find_pattern(&chars, "</string>", value_start) {
        Some(place) => place,
        None => {
            return plist.to_owned();
        },
    };
    let mut updated = text_from(&chars, 0, value_start);
    updated.push_str(value);
    let rest = text_from(&chars, value_end, length);
    updated.push_str(rest.as_str());
    assert(updated@ =~= plist@.take(value_start as int) + value@ + plist@.skip(value_end as int));
    updated
}

/// Puts another version into a property list.
pub fn update_plist_versions(plist: &str, version: &str) -> (updated: String)
    ensures
        updated@ == with_version(plist@, version@),
{
    let updated = replace_value(plist, "CFBundleVersion", version);
    replace_value(updated.as_str(), "CFBundleShortVersionString", version)
}

/// A first place is one, and no place before it is.
proof fn lemma_first_place(text: Seq<char>, pattern: Seq<char>, from: int)
    requires
        0 <= from,
    ensures
        match first_place(text, pattern, from) {
            Some(place) => from <= place && stands_at(text, pattern, place) && (forall|i: int|
                from <= i < place ==> !stands_at(text, pattern, i)),
            None => true,
        },
    decreases text.len() - from + 1,
{
    if from + pattern.len() <= text.len() && !stands_at(text, pattern, from) {
        lemma_first_place(text, pattern, from + 1);
        if let Some(place) = first_place(text, pattern, from + 1) {
            assert forall|i: int| from <= i < place implies !stands_at(text, pattern, i) by {
                if i > from {
                }
            }
        }
    }
}

/// A place at which a pattern stands, and before which it does not, is the first.
proof fn lemma_first_place_is(text: Seq<char>, pattern: Seq<char>, from: int, place: int)
    requires
        0 <= from <= place,
        stands_at(text, pattern, place),
        forall|i: int| from <= i < place ==> !stands_at(text, pattern, i),
    ensures
        first_place(text, pattern, from) == Some(place),
    decreases place - from,
{
    if from < place {
        assert(!stands_at(text, pattern, from));
        lemma_first_place_is(text, pattern, from + 1, place);
    }
}

/// Up to a place at which two texts begin to differ, a pattern stands at the same
/// places of both.
proof fn lemma_same_places(text: Seq<char>, other: Seq<char>, pattern: Seq<char>, same: int, place: int)
    requires
        0 <= same <= text.len(),
        same <= other.len(),
        text.take(same) == other.take(same),
        0 <= place,
        place + pattern.len() <= same,
    ensures
        stands_at(text, pattern, place) == stands_at(other, pattern, place),
{
    let end = place + pattern.len();
    assert(text.subrange(place, end) =~= text.take(same).subrange(place, end));
    assert(other.subrange(place, end) =~= other.take(same).subrange(place, end));
}

/// A value that was put into a property list is found there, whatever stood there
/// before, and nothing else is lost: the rest stands around it. The value must
/// not hold the sign that begins a tag.
pub proof fn values_are_read_back(plist: Seq<char>, key: Seq<char>, value: Seq<char>)
    requires
        !value.contains('<'),
        value_of(plist, key) is Some,
    ensures
        value_of(with_value(plist, key, value), key) == Some(value),
{
    let marker = key_marker(key);
    let (start, end) = value_bounds(plist, key)->0;
    let updated = with_value(plist, key, value);
    reveal_strlit("<key>");
    reveal_strlit("</key>");
    reveal_strlit("<string>");
    reveal_strlit("</string>");
    let place = first_place(plist, marker, 0)->0;
    lemma_first_place(plist, marker, 0);
    let string = first_place(plist, "<string>"@, place + marker.len())->0;
    lemma_first_place(plist, "<string>"@, place + marker.len());
    lemma_first_place(plist, "</string>"@, start);
    assert(start == string + 8);
    assert(updated.take(start) =~= plist.take(start));
    assert forall|i: int| 0 <= i <= place implies stands_at(plist, marker, i) == stands_at(
        updated,
        marker,
        i,
    ) by {
        lemma_same_places(plist, updated, marker, start, i);
    }
    lemma_first_place_is(updated, marker, 0, place);
    assert forall|i: int| place + marker.len() <= i <= string implies stands_at(
        plist,
        "<string>"@,
        i,
    ) == stands_at(updated, "<string>"@, i) by {
        lemma_same_places(plist, updated, "<string>"@, start, i);
    }
    lemma_first_place_is(updated, "<string>"@, place + marker.len(), string);
    let new_end = start + value.len();
    assert forall|i: int| start <= i < new_end implies !stands_at(updated, "</string>"@, i) by {
        if stands_at(updated, "</string>"@, i) {
            assert(updated.subrange(i, i + 9)[0] == updated[i]);
            assert(updated[i] == value[i - start]);
            assert(value.contains(value[i - start]));
        }
    }
    assert(updated.subrange(new_end, new_end + 9) =~= plist.subrange(end, end + 9));
    assert(stands_at(updated, "</string>"@, new_end));
    lemma_first_place_is(updated, "</string>"@, start, new_end);
    assert(updated.subrange(start, new_end) =~= value);
}

/// To put a value in place that already stands there changes nothing.
pub proof fn setting_a_value_again_changes_nothing(plist: Seq<char>, key: Seq<char>, value: Seq<char>)
    requires
        !value.contains('<'),
    ensures
        with_value(with_value(plist, key, value), key, value) == with_value(plist, key, value),
{
    if value_of(plist, key) is Some {
        let updated = with_value(plist, key, value);
        values_are_read_back(plist, key, value);
        let (start, end) = value_bounds(updated, key)->0;
        reveal_strlit("<string>");
        lemma_first_place(updated, key_marker(key), 0);
        lemma_first_place(
            updated,
            "<string>"@,
            first_place(updated, key_marker(key), 0)->0 + key_marker(key).len(),
        );
        lemma_first_place(updated, "</string>"@, start);
        assert(updated.subrange(start, end) == value);
        assert(updated.take(start) + value + updated.skip(end) =~= updated);
    }
}

/// Putting a value into a property list changes that value only: what stands before it and
/// behind it stays, and a list without the key stays as it is.
pub proof fn the_rest_of_the_list_stays(plist: Seq<char>, key: Seq<char>, value: Seq<char>)
    ensures
        value_of(plist, key) is None ==> with_value(plist, key, value) == plist,
        value_of(plist, key) matches Some(earlier) ==> exists|before: Seq<char>, behind: Seq<char>|
            plist == #[trigger] (before + earlier + behind) && with_value(plist, key, value)
                == before + value + behind,
{
    if value_of(plist, key) is Some {
        let (start, end) = value_bounds(plist, key)->0;
        lemma_first_place(plist, key_marker(key), 0);
        let marker = first_place(plist, key_marker(key), 0)->0;
        lemma_first_place(plist, "<string>"@, marker + key_marker(key).len());
        lemma_first_place(plist, "</string>"@, start);
        let (before, behind) = (plist.take(start), plist.skip(end));
        let earlier = value_of(plist, key)->0;
        assert(earlier == plist.subrange(start, end));
        assert(plist =~= before + earlier + behind);
        assert(with_value(plist, key, value) == before + value + behind);
    }
}

} // verus!
