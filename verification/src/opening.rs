//! The parts of an XLSX package that its cell data is read from.
//!
//! The package names its workbook, the workbook its sheets. What these parts, the table of
//! shared strings and the style sheet hold is tested before the cell data is read.

use std::io::Cursor;

use vstd::prelude::*;

use crate::archive::{
    archive_bytes, archive_parts, entry_content, entry_index, entry_names, find_entry,
    open_archive, read_entry, read_names,
};
use crate::limits::{
    begun, begun_tag, ends, ends_element, events_view, fits_sheet, fits_strings, fits_styles,
    sheet_fits, strings_fit, styles_fit,
};
use crate::package::{find_last, last_value, pairs_view};
use crate::pairs::{keys_view, met_value, pairs_met, read_pairs, value_met};
use crate::text::{ascii_lowered, lower_char, lower_text, same_text, text_from, to_chars};
use crate::xml::{
    document_of, markup_items, read_markup, unescape, xml_unescaped, XmlDocument, XmlEvent,
    XmlEventView, XmlTag, XmlTagView,
};

verus! {

/// A name with slashes for backslashes and its ASCII letters in lower case.
pub open spec fn plain_name(name: Seq<char>) -> Seq<char> {
    ascii_lowered(
        name.map_values(
            |ch: char|
                if ch == '\\' {
                    '/'
                } else {
                    ch
                },
        ),
    )
}

/// The last of several names that is the given one but for slashes and case.
pub open spec fn last_named(names: Seq<Seq<char>>, plain: Seq<char>) -> Option<Seq<char>>
    decreases names.len(),
{
    if names.len() == 0 {
        None
    } else if plain_name(names.last()) == plain {
        Some(names.last())
    } else {
        last_named(names.drop_last(), plain)
    }
}

/// What can be read of the part at a path of the package that some bytes are, if there is
/// such a part. The case of the path does not count.
pub open spec fn part_content(bytes: Seq<u8>, path: Seq<char>) -> Option<Seq<u8>> {
    match entry_names(bytes) {
        None => None,
        Some(names) => {
            let name = match last_named(names, ascii_lowered(path)) {
                Some(name) => name,
                None => path,
            };
            match entry_index(bytes, name) {
                Some(index) => Some(entry_content(bytes, index)),
                None => None,
            }
        },
    }
}

/// The events of the part at a path, if there is such a part.
pub open spec fn part_events(bytes: Seq<u8>, path: Seq<char>) -> Option<Seq<XmlEventView>> {
    match part_content(bytes, path) {
        Some(content) => Some(document_of(markup_items(content)).events),
        None => None,
    }
}

/// Whether a text ends with another.
pub open spec fn has_suffix(text: Seq<char>, suffix: Seq<char>) -> bool {
    text.len() >= suffix.len() && text.skip(text.len() - suffix.len()) == suffix
}

/// The part that a relationship of a package names as its document, if it does.
pub open spec fn document_named(tag: XmlTagView) -> Option<Seq<char>> {
    let keys = seq!["Type"@, "Target"@];
    match (
        met_value(tag.attributes, keys, "Type"@),
        met_value(tag.attributes, keys, "Target"@),
    ) {
        (Some(kind), Some(target)) => if tag.local_name == "Relationship"@ && has_suffix(
            kind,
            "/relationships/officeDocument"@,
        ) {
            match xml_unescaped(target) {
                Ok(target) => Some(target),
                Err(_) => None,
            }
        } else {
            None
        },
        _ => None,
    }
}

/// How far the relationships of a package are read.
#[verifier::ext_equal]
pub struct TargetReading {
    pub started: bool,
    pub done: bool,
    pub target: Option<Seq<char>>,
}

impl TargetReading {
    /// The reading behind another event. The last document counts.
    pub open spec fn after(self, event: XmlEventView) -> Self {
        if self.done {
            self
        } else if !self.started {
            match begun(event) {
                Some(tag) if tag.local_name == "Relationships"@ => TargetReading {
                    started: true,
                    done: event is Empty,
                    ..self
                },
                _ => self,
            }
        } else if ends(event, "Relationships"@) {
            TargetReading { done: true, ..self }
        } else {
            match begun(event) {
                Some(tag) => match document_named(tag) {
                    Some(target) => TargetReading { target: Some(target), ..self },
                    None => self,
                },
                None => self,
            }
        }
    }
}

/// The reading behind events.
pub open spec fn target_reading(events: Seq<XmlEventView>) -> TargetReading
    decreases events.len(),
{
    if events.len() == 0 {
        TargetReading { started: false, done: false, target: None }
    } else {
        target_reading(events.drop_last()).after(events.last())
    }
}

/// Where the last slash of a path ends, or the start.
pub open spec fn folder_length(path: Seq<char>) -> nat
    decreases path.len(),
{
    if path.len() == 0 || path.last() == '/' {
        path.len()
    } else {
        folder_length(path.drop_last())
    }
}

/// A path without one slash in front.
pub open spec fn without_slash(path: Seq<char>) -> Seq<char> {
    if path.len() > 0 && path[0] == '/' {
        path.skip(1)
    } else {
        path
    }
}

/// The folder of a document, with the slash behind it.
pub open spec fn folder_of(target: Seq<char>) -> Seq<char> {
    without_slash(target.take(folder_length(target) as int))
}

/// The name of a document in its folder.
pub open spec fn name_in_folder(target: Seq<char>) -> Seq<char> {
    let name = target.skip(folder_length(target) as int);
    if name.len() == 0 {
        "workbook.xml"@
    } else {
        name
    }
}

/// The key and the target of a relationship, if it has a key. A target that is left out is
/// empty.
pub open spec fn relationship_of(tag: XmlTagView) -> Option<(Seq<char>, Seq<char>)> {
    let keys = seq!["Id"@, "Type"@, "Target"@];
    if tag.local_name == "Relationship"@ {
        match met_value(tag.attributes, keys, "Id"@) {
            Some(id) => Some(
                (
                    id,
                    match met_value(tag.attributes, keys, "Target"@) {
                        Some(target) => target,
                        None => Seq::empty(),
                    },
                ),
            ),
            None => None,
        }
    } else {
        None
    }
}

/// Whether the relationships have ended among events.
pub open spec fn relationships_ended(events: Seq<XmlEventView>) -> bool {
    exists|i: int| 0 <= i < events.len() && ends(#[trigger] events[i], "Relationships"@)
}

/// The relationships of a workbook.
pub open spec fn relationships_in(events: Seq<XmlEventView>) -> Seq<(Seq<char>, Seq<char>)>
    decreases events.len(),
{
    if events.len() == 0 {
        Seq::empty()
    } else {
        let before = relationships_in(events.drop_last());
        if relationships_ended(events.drop_last()) {
            before
        } else {
            match begun(events.last()) {
                Some(tag) => match relationship_of(tag) {
                    Some(relationship) => before.push(relationship),
                    None => before,
                },
                None => before,
            }
        }
    }
}

/// Whether a key is `id`, with or without a prefix.
pub open spec fn is_id(key: Seq<char>) -> bool {
    key == "id"@ || has_suffix(key, ":id"@)
}

/// The value of the last key that is `id`, or nothing.
pub open spec fn id_among(pairs: Seq<(Seq<char>, Seq<char>)>) -> Seq<char>
    decreases pairs.len(),
{
    if pairs.len() == 0 {
        Seq::empty()
    } else if is_id(pairs.last().0) {
        pairs.last().1
    } else {
        id_among(pairs.drop_last())
    }
}

/// The path of a sheet's part, given where its relationship points to: from the top of the
/// package behind a slash, else from the workbook's folder.
pub open spec fn sheet_path(folder: Seq<char>, target: Seq<char>) -> Seq<char> {
    if target.len() > 0 && target[0] == '/' {
        target.skip(1)
    } else {
        folder + target
    }
}

/// The path of the part of the sheet that a tag lists, if it lists one.
pub open spec fn listed_path(
    tag: XmlTagView,
    folder: Seq<char>,
    relationships: Seq<(Seq<char>, Seq<char>)>,
) -> Option<Seq<char>> {
    if tag.local_name == "sheet"@ {
        match pairs_met(tag.attributes, Seq::empty(), 1) {
            Some(pairs) => match last_value(relationships, id_among(pairs)) {
                Some(target) => Some(sheet_path(folder, target)),
                None => None,
            },
            None => None,
        }
    } else {
        None
    }
}

/// Whether the numbers in the part at a path, if there is one, fit.
pub open spec fn sheet_part_fits(bytes: Seq<u8>, path: Seq<char>) -> bool {
    part_events(bytes, path) matches Some(events) ==> sheet_fits(events)
}

/// Whether the numbers in the parts of all sheets that a workbook lists fit.
pub open spec fn listed_sheets_fit(
    bytes: Seq<u8>,
    workbook: Seq<XmlEventView>,
    folder: Seq<char>,
    relationships: Seq<(Seq<char>, Seq<char>)>,
) -> bool {
    forall|i: int|
        0 <= i < workbook.len() ==> (begun(#[trigger] workbook[i]) matches Some(tag) ==> (
        listed_path(tag, folder, relationships) matches Some(path) ==> sheet_part_fits(
            bytes,
            path,
        )))
}

/// The path of the relationships of a workbook.
pub open spec fn relationships_path(folder: Seq<char>, name: Seq<char>) -> Seq<char> {
    folder + "_rels/"@ + name + ".rels"@
}

/// Whether what is read of a workbook in a folder fits: its shared strings, its number
/// formats and its sheets.
pub open spec fn workbook_fits(bytes: Seq<u8>, folder: Seq<char>, name: Seq<char>) -> bool {
    &&& part_events(bytes, folder + "sharedStrings.xml"@) matches Some(events) ==> strings_fit(
        events,
    )
    &&& part_events(bytes, folder + "styles.xml"@) matches Some(events) ==> styles_fit(events)
    &&& part_events(bytes, relationships_path(folder, name)) matches Some(relationships) ==> (
    part_events(bytes, folder + name) matches Some(workbook) ==> listed_sheets_fit(
        bytes,
        workbook,
        folder,
        relationships_in(relationships),
    ))
}

/// Whether what the cell data of the package that some bytes are is read from fits. Bytes
/// that are no package have none, and a package that names no document neither.
pub open spec fn package_fits(bytes: Seq<u8>) -> bool {
    archive_parts(bytes) is Ok ==> (part_events(bytes, "_rels/.rels"@) matches Some(events) ==> (
    target_reading(events).target matches Some(target) ==> workbook_fits(
        bytes,
        folder_of(target),
        name_in_folder(target),
    )))
}

/// A name with slashes for backslashes and its ASCII letters in lower case.
fn plain(name: &str) -> (plain: String)
    ensures
        plain@ == plain_name(name@),
{
    let chars = to_chars(name);
    let mut plain = String::new();
    let mut index: usize = 0;
    while index < chars.len()
        invariant
            index <= chars@.len(),
            chars@ == name@,
            plain@ == plain_name(name@.take(index as int)),
        decreases chars@.len() - index,
    {
        let ch = if chars[index] == '\\' {
            '/'
        } else {
            chars[index]
        };
        plain.push(lower_char(ch));
        index += 1;
        assert(plain@ =~= plain_name(name@.take(index as int)));
    }
    assert(name@.take(index as int) == name@);
    plain
}

/// The last of several names that is the given one but for slashes and case.
fn find_named<'a>(names: &'a Vec<String>, wanted: &str) -> (name: Option<&'a String>)
    ensures
        match name {
            Some(name) => last_named(names@.map_values(|name: String| name@), wanted@) == Some(
                name@,
            ),
            None => last_named(names@.map_values(|name: String| name@), wanted@) is None,
        },
{
    let ghost views = names@.map_values(|name: String| name@);
    let mut index: usize = names.len();
    assert(views.take(index as int) == views);
    while index > 0
        invariant
            index <= names@.len(),
            views == names@.map_values(|name: String| name@),
            last_named(views, wanted@) == last_named(views.take(index as int), wanted@),
        decreases index,
    {
        assert(views.take(index as int).drop_last() == views.take(index - 1));
        index -= 1;
        assert(views.take(index + 1).last() == names@[index as int]@);
        let plain_text = plain(names[index].as_str());
        if same_text(plain_text.as_str(), wanted) {
            return Some(&names[index]);
        }
    }
    None
}

/// Reads the events of the part at a path, if there is such a part.
fn read_events_at(archive: &mut zip::ZipArchive<Cursor<Vec<u8>>>, path: &str) -> (document: Option<
    XmlDocument,
>)
    ensures
        archive_bytes(final(archive)) == archive_bytes(old(archive)),
        match document {
            Some(document) => part_events(archive_bytes(old(archive)), path@) == Some(
                events_view(document.events@),
            ),
            None => part_events(archive_bytes(old(archive)), path@) is None,
        },
{
    let names = match read_names(archive) {
        None => {
            return None;
        },
        Some(names) => names,
    };
    let wanted = lower_text(path);
    let found = match find_named(&names, wanted.as_str()) {
        Some(name) => find_entry(archive, name.as_str()),
        None => find_entry(archive, path),
    };
    match found {
        None => None,
        Some(index) => {
            let content = read_entry(archive, index);
            Some(read_markup(&content))
        },
    }
}

/// Whether a text ends with another.
fn ends_with(text: &str, suffix: &str) -> (is: bool)
    ensures
        is == has_suffix(text@, suffix@),
{
    let chars = to_chars(text);
    let length: usize = to_chars(suffix).len();
    if chars.len() < length {
        return false;
    }
    let end = text_from(&chars, chars.len() - length, chars.len());
    assert(chars@.subrange(chars@.len() - length, chars@.len() as int) == text@.skip(
        text@.len() - suffix@.len(),
    ));
    same_text(end.as_str(), suffix)
}

/// The part that a relationship of a package names as its document, if it does.
fn read_document_named(tag: &XmlTag) -> (target: Option<String>)
    ensures
        match target {
            Some(target) => document_named(tag@) == Some(target@),
            None => document_named(tag@) is None,
        },
{
    let keys: Vec<&str> = vec!["Type", "Target"];
    assert(keys_view(keys@) =~= seq!["Type"@, "Target"@]);
    match (
        value_met(tag.attributes.as_str(), &keys, "Type"),
        value_met(tag.attributes.as_str(), &keys, "Target"),
    ) {
        (Some(kind), Some(target)) => if same_text(tag.local_name.as_str(), "Relationship")
            && ends_with(kind.as_str(), "/relationships/officeDocument") {
            match unescape(target.as_str()) {
                Ok(target) => Some(target),
                Err(_) => None,
            }
        } else {
            None
        },
        _ => None,
    }
}

/// The document that the relationships of a package name.
fn read_target(events: &Vec<XmlEvent>) -> (target: Option<String>)
    ensures
        match target {
            Some(target) => target_reading(events_view(events@)).target == Some(target@),
            None => target_reading(events_view(events@)).target is None,
        },
{
    let ghost views = events_view(events@);
    let mut started: bool = false;
    let mut done: bool = false;
    let mut target: Option<String> = None;
    let mut index: usize = 0;
    while index < events.len()
        invariant
            index <= events@.len(),
            views == events_view(events@),
            target_reading(views.take(index as int)) == (TargetReading {
                started,
                done,
                target: match target {
                    Some(target) => Some(target@),
                    None => None,
                },
            }),
        decreases events@.len() - index,
    {
        assert(views.take(index + 1).drop_last() == views.take(index as int));
        assert(views[index as int] == events@[index as int]@);
        let event = &events[index];
        if !done {
            if !started {
                if let Some(tag) = begun_tag(event) {
                    if same_text(tag.local_name.as_str(), "Relationships") {
                        started = true;
                        done = match event {
                            XmlEvent::Empty(_) => true,
                            _ => false,
                        };
                    }
                }
            } else if ends_element(event, "Relationships") {
                done = true;
            } else if let Some(tag) = begun_tag(event) {
                if let Some(named) = read_document_named(tag) {
                    target = Some(named);
                }
            }
        }
        index += 1;
    }
    assert(views.take(index as int) == views);
    target
}

/// Where the last slash of a path ends, or the start.
fn folder_end(chars: &Vec<char>) -> (end: usize)
    ensures
        end == folder_length(chars@),
        end <= chars@.len(),
{
    let mut end: usize = chars.len();
    assert(chars@.take(end as int) == chars@);
    while end > 0 && chars[end - 1] != '/'
        invariant
            end <= chars@.len(),
            folder_length(chars@) == folder_length(chars@.take(end as int)),
        decreases end,
    {
        assert(chars@.take(end as int).drop_last() == chars@.take(end - 1));
        end -= 1;
    }
    end
}

/// The folder of a document and its name there.
fn split_target(target: &str) -> (parts: (String, String))
    ensures
        parts.0@ == folder_of(target@),
        parts.1@ == name_in_folder(target@),
{
    let chars = to_chars(target);
    let end: usize = folder_end(&chars);
    let start: usize = if end > 0 && chars[0] == '/' {
        1
    } else {
        0
    };
    let folder = text_from(&chars, start, end);
    assert(folder@ =~= folder_of(target@));
    if end == chars.len() {
        return (folder, "workbook.xml".to_owned());
    }
    let name = text_from(&chars, end, chars.len());
    assert(name@ =~= target@.skip(end as int));
    (folder, name)
}

/// The key and the target of a relationship, if it has a key.
fn read_relationship(tag: &XmlTag) -> (relationship: Option<(String, String)>)
    ensures
        match relationship {
            Some(relationship) => relationship_of(tag@) == Some(
                (relationship.0@, relationship.1@),
            ),
            None => relationship_of(tag@) is None,
        },
{
    if !same_text(tag.local_name.as_str(), "Relationship") {
        return None;
    }
    let keys: Vec<&str> = vec!["Id", "Type", "Target"];
    assert(keys_view(keys@) =~= seq!["Id"@, "Type"@, "Target"@]);
    match value_met(tag.attributes.as_str(), &keys, "Id") {
        None => None,
        Some(id) => {
            let target = match value_met(tag.attributes.as_str(), &keys, "Target") {
                Some(target) => target,
                None => String::new(),
            };
            Some((id, target))
        },
    }
}

/// The relationships of a workbook.
fn read_relationships(events: &Vec<XmlEvent>) -> (relationships: Vec<(String, String)>)
    ensures
        pairs_view(relationships@) == relationships_in(events_view(events@)),
{
    let ghost views = events_view(events@);
    let mut relationships: Vec<(String, String)> = Vec::new();
    assert(pairs_view(relationships@) =~= relationships_in(views.take(0)));
    let mut ended: bool = false;
    let mut index: usize = 0;
    while index < events.len()
        invariant
            index <= events@.len(),
            views == events_view(events@),
            ended == relationships_ended(views.take(index as int)),
            pairs_view(relationships@) == relationships_in(views.take(index as int)),
        decreases events@.len() - index,
    {
        let ghost earlier = views.take(index as int);
        let ghost later = views.take(index + 1);
        assert(later.drop_last() == earlier);
        assert(later.last() == events@[index as int]@);
        let event = &events[index];
        if !ended {
            if let Some(tag) = begun_tag(event) {
                if let Some(relationship) = read_relationship(tag) {
                    let ghost before = relationships@;
                    let ghost pair = (relationship.0@, relationship.1@);
                    relationships.push(relationship);
                    assert(pairs_view(relationships@) =~= pairs_view(before).push(pair));
                }
            }
        }
        let ends_here = ends_element(event, "Relationships");
        proof {
            if ended {
                let i = choose|i: int|
                    0 <= i < earlier.len() && ends(#[trigger] earlier[i], "Relationships"@);
                assert(ends(later[i], "Relationships"@));
            } else if ends_here {
                assert(ends(later[index as int], "Relationships"@));
            } else if relationships_ended(later) {
                let i = choose|i: int|
                    0 <= i < later.len() && ends(#[trigger] later[i], "Relationships"@);
                assert(i < index);
                assert(ends(earlier[i], "Relationships"@));
            }
        }
        ended = ended || ends_here;
        index += 1;
    }
    assert(views.take(index as int) == views);
    relationships
}

/// The value of the last key that is `id`, or nothing.
fn find_id(pairs: &Vec<(String, String)>) -> (id: String)
    ensures
        id@ == id_among(pairs_view(pairs@)),
{
    let ghost views = pairs_view(pairs@);
    let mut index: usize = pairs.len();
    assert(views.take(index as int) == views);
    while index > 0
        invariant
            index <= pairs@.len(),
            views == pairs_view(pairs@),
            id_among(views) == id_among(views.take(index as int)),
        decreases index,
    {
        assert(views.take(index as int).drop_last() == views.take(index - 1));
        index -= 1;
        assert(views.take(index + 1).last() == (pairs@[index as int].0@, pairs@[index as int].1@));
        let key = pairs[index].0.as_str();
        if same_text(key, "id") || ends_with(key, ":id") {
            return pairs[index].1.clone();
        }
    }
    String::new()
}

/// The path of the part of the sheet that a tag lists, if it lists one.
fn read_listed_path(tag: &XmlTag, folder: &str, relationships: &Vec<(String, String)>) -> (path:
    Option<String>)
    ensures
        match path {
            Some(path) => listed_path(tag@, folder@, pairs_view(relationships@)) == Some(path@),
            None => listed_path(tag@, folder@, pairs_view(relationships@)) is None,
        },
{
    if !same_text(tag.local_name.as_str(), "sheet") {
        return None;
    }
    let keys: Vec<&str> = Vec::new();
    assert(keys_view(keys@) =~= Seq::<Seq<char>>::empty());
    let pairs = match read_pairs(tag.attributes.as_str(), &keys, 1) {
        None => {
            return None;
        },
        Some(pairs) => pairs,
    };
    let id = find_id(&pairs);
    match find_last(relationships, id.as_str()) {
        None => None,
        Some(target) => {
            let chars = to_chars(target.as_str());
            if chars.len() > 0 && chars[0] == '/' {
                let path = text_from(&chars, 1, chars.len());
                assert(path@ =~= target@.skip(1));
                Some(path)
            } else {
                let mut path = folder.to_owned();
                path.push_str(target.as_str());
                Some(path)
            }
        },
    }
}

/// Whether the numbers in the parts of all sheets that a workbook lists fit.
fn fits_listed_sheets(
    archive: &mut zip::ZipArchive<Cursor<Vec<u8>>>,
    workbook: &Vec<XmlEvent>,
    folder: &str,
    relationships: &Vec<(String, String)>,
) -> (fits: bool)
    ensures
        archive_bytes(final(archive)) == archive_bytes(old(archive)),
        fits == listed_sheets_fit(
            archive_bytes(old(archive)),
            events_view(workbook@),
            folder@,
            pairs_view(relationships@),
        ),
{
    let ghost bytes = archive_bytes(archive);
    let ghost views = events_view(workbook@);
    let mut index: usize = 0;
    while index < workbook.len()
        invariant
            index <= workbook@.len(),
            views == events_view(workbook@),
            bytes == archive_bytes(old(archive)),
            bytes == archive_bytes(archive),
            forall|i: int|
                0 <= i < index ==> (begun(#[trigger] views[i]) matches Some(tag) ==> (listed_path(
                    tag,
                    folder@,
                    pairs_view(relationships@),
                ) matches Some(path) ==> sheet_part_fits(bytes, path))),
        decreases workbook@.len() - index,
    {
        assert(views[index as int] == workbook@[index as int]@);
        if let Some(tag) = begun_tag(&workbook[index]) {
            if let Some(path) = read_listed_path(tag, folder, relationships) {
                if let Some(document) = read_events_at(archive, path.as_str()) {
                    if !fits_sheet(&document.events) {
                        assert(!sheet_part_fits(bytes, path@));
                        return false;
                    }
                }
            }
        }
        index += 1;
    }
    true
}

/// Two texts in a row.
fn joined(first: &str, second: &str) -> (text: String)
    ensures
        text@ == first@ + second@,
{
    let mut text = first.to_owned();
    text.push_str(second);
    text
}

/// Whether what is read of a workbook in a folder fits.
fn fits_workbook(archive: &mut zip::ZipArchive<Cursor<Vec<u8>>>, folder: &str, name: &str) -> (fits:
    bool)
    ensures
        archive_bytes(final(archive)) == archive_bytes(old(archive)),
        fits == workbook_fits(archive_bytes(old(archive)), folder@, name@),
{
    let strings_path = joined(folder, "sharedStrings.xml");
    if let Some(document) = read_events_at(archive, strings_path.as_str()) {
        if !fits_strings(&document.events) {
            return false;
        }
    }
    let styles_path = joined(folder, "styles.xml");
    if let Some(document) = read_events_at(archive, styles_path.as_str()) {
        if !fits_styles(&document.events) {
            return false;
        }
    }
    let mut rels_path = joined(folder, "_rels/");
    rels_path.push_str(name);
    rels_path.push_str(".rels");
    let relationships = match read_events_at(archive, rels_path.as_str()) {
        None => {
            return true;
        },
        Some(document) => read_relationships(&document.events),
    };
    let workbook_path = joined(folder, name);
    match read_events_at(archive, workbook_path.as_str()) {
        None => true,
        Some(document) => fits_listed_sheets(archive, &document.events, folder, &relationships),
    }
}

/// Whether what the cell data of the package that some bytes are is read from fits.
pub fn fits_package(bytes: Vec<u8>) -> (fits: bool)
    ensures
        fits == package_fits(bytes@),
{
    let mut archive = match open_archive(bytes) {
        Err(_) => {
            return true;
        },
        Ok(archive) => archive,
    };
    let target = match read_events_at(&mut archive, "_rels/.rels") {
        None => {
            return true;
        },
        Some(document) => read_target(&document.events),
    };
    match target {
        None => true,
        Some(target) => {
            let (folder, name) = split_target(target.as_str());
            fits_workbook(&mut archive, folder.as_str(), name.as_str())
        },
    }
}

} // verus!
