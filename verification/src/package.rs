//! An XLSX package: how its parts hang together.

use std::io::Cursor;

use vstd::prelude::*;

use crate::archive::{archive_parts, open_archive, parts_of, read_part, Parts};
use crate::errors::{viewed_result, XlsxError, XlsxErrorView};
use crate::metadata::{
    document_metadata, read_sheet_metadata, SheetMetadata, SheetMetadataView,
};
use crate::styles::{document_styles, empty_tags, read_styles, styles_result, XlsxCellStyle};
use crate::text::{begins_with, same_text, starts_with, text_from, to_chars};
use crate::xml::{
    attr_string, attribute_result, document_of, read_document, xml_items, XmlDocument, XmlDocumentView, XmlEvent,
    XmlEventView, XmlTagView,
};

verus! {

/// The content of a list of pairs of texts.
pub open spec fn pairs_view(pairs: Seq<(String, String)>) -> Seq<(Seq<char>, Seq<char>)> {
    pairs.map_values(|pair: (String, String)| (pair.0@, pair.1@))
}

/// The content of a list of pairs of texts, or the error in its place.
pub open spec fn pairs_result(pairs: Result<Vec<(String, String)>, XlsxError>) -> Result<
    Seq<(Seq<char>, Seq<char>)>,
    XlsxErrorView,
> {
    match pairs {
        Ok(pairs) => Ok(pairs_view(pairs@)),
        Err(error) => Err(error@),
    }
}

/// The two attributes of a tag, where the tag has the name and both of them.
pub open spec fn tag_pair(
    event: XmlEventView,
    element: Seq<char>,
    first: Seq<char>,
    second: Seq<char>,
) -> Result<Option<(Seq<char>, Seq<char>)>, XlsxErrorView> {
    match event {
        XmlEventView::Start(tag) => pair_of_tag(tag, element, first, second),
        XmlEventView::Empty(tag) => pair_of_tag(tag, element, first, second),
        _ => Ok(None),
    }
}

/// The two attributes of a tag, where the tag has the name and both of them.
pub open spec fn pair_of_tag(
    tag: XmlTagView,
    element: Seq<char>,
    first: Seq<char>,
    second: Seq<char>,
) -> Result<Option<(Seq<char>, Seq<char>)>, XlsxErrorView> {
    if tag.local_name != element {
        Ok(None)
    } else {
        match (tag.attribute(first), tag.attribute(second)) {
            (Err(error), _) => Err(error),
            (_, Err(error)) => Err(error),
            (Ok(Some(one)), Ok(Some(other))) => Ok(Some((one, other))),
            _ => Ok(None),
        }
    }
}

/// The pairs of attributes that the events give, in order, or the first error.
pub open spec fn event_pairs(
    events: Seq<XmlEventView>,
    element: Seq<char>,
    first: Seq<char>,
    second: Seq<char>,
) -> Result<Seq<(Seq<char>, Seq<char>)>, XlsxErrorView>
    decreases events.len(),
{
    if events.len() == 0 {
        Ok(Seq::empty())
    } else {
        match (
            event_pairs(events.drop_last(), element, first, second),
            tag_pair(events.last(), element, first, second),
        ) {
            (Err(error), _) => Err(error),
            (Ok(_), Err(error)) => Err(error),
            (Ok(pairs), Ok(None)) => Ok(pairs),
            (Ok(pairs), Ok(Some(pair))) => Ok(pairs.push(pair)),
        }
    }
}

/// The pairs of attributes that a document gives.
pub open spec fn document_pairs(
    document: XmlDocumentView,
    element: Seq<char>,
    first: Seq<char>,
    second: Seq<char>,
) -> Result<Seq<(Seq<char>, Seq<char>)>, XlsxErrorView> {
    match event_pairs(document.events, element, first, second) {
        Err(error) => Err(error),
        Ok(pairs) => match document.error {
            Some(message) => Err(XlsxErrorView::Xml(message)),
            None => Ok(pairs),
        },
    }
}

/// An error in a part of the events is the error of them all.
proof fn lemma_event_pairs_error(
    events: Seq<XmlEventView>,
    length: int,
    element: Seq<char>,
    first: Seq<char>,
    second: Seq<char>,
)
    requires
        0 <= length <= events.len(),
        event_pairs(events.take(length), element, first, second) is Err,
    ensures
        event_pairs(events, element, first, second) == event_pairs(
            events.take(length),
            element,
            first,
            second,
        ),
    decreases events.len() - length,
{
    if length == events.len() {
        assert(events.take(length) == events);
    } else {
        assert(events.take(length + 1).drop_last() == events.take(length));
        lemma_event_pairs_error(events, length + 1, element, first, second);
    }
}

/// Gathers the pairs of attributes that a document gives.
fn pairs_of_document(document: &XmlDocument, element: &str, first: &str, second: &str) -> (pairs:
    Result<Vec<(String, String)>, XlsxError>)
    ensures
        pairs_result(pairs) == document_pairs(document@, element@, first@, second@),
{
    let ghost events = document@.events;
    let mut pairs: Vec<(String, String)> = Vec::new();
    let mut index: usize = 0;
    assert(pairs_view(pairs@) == Seq::<(Seq<char>, Seq<char>)>::empty());
    while index < document.events.len()
        invariant
            index <= document.events@.len(),
            events == document@.events,
            event_pairs(events.take(index as int), element@, first@, second@) == Ok::<
                _,
                XlsxErrorView,
            >(pairs_view(pairs@)),
        decreases document.events@.len() - index,
    {
        proof {
            let longer = events.take(index + 1);
            assert(longer.drop_last() == events.take(index as int));
            assert(longer.last() == document.events@[index as int]@);
            if event_pairs(longer, element@, first@, second@) is Err {
                lemma_event_pairs_error(events, index + 1, element@, first@, second@);
            }
        }
        let tag = match &document.events[index] {
            XmlEvent::Start(tag) => Some(tag),
            XmlEvent::Empty(tag) => Some(tag),
            _ => None,
        };
        if let Some(tag) = tag {
            if same_text(tag.local_name.as_str(), element) {
                let one = match attr_string(tag, first) {
                    Err(error) => {
                        return Err(error);
                    },
                    Ok(one) => one,
                };
                let other = match attr_string(tag, second) {
                    Err(error) => {
                        return Err(error);
                    },
                    Ok(other) => other,
                };
                if let Some(one) = one {
                    if let Some(other) = other {
                        let ghost before = pairs@;
                        pairs.push((one, other));
                        assert(pairs_view(pairs@) == pairs_view(before).push((one@, other@)));
                    }
                }
            }
        }
        index += 1;
    }
    assert(events.take(index as int) == events);
    match &document.error {
        Some(message) => Err(XlsxError::Xml(message.clone())),
        None => Ok(pairs),
    }
}

/// The names of a workbook's sheets, each with the identifier of the
/// relationship that leads to its part.
pub fn workbook_sheet_relationships(workbook_xml: &str) -> (sheets: Result<
    Vec<(String, String)>,
    XlsxError,
>)
    ensures
        pairs_result(sheets) == document_pairs(
            document_of(xml_items(workbook_xml@)),
            "sheet"@,
            "name"@,
            "id"@,
        ),
{
    pairs_of_document(&read_document(workbook_xml), "sheet", "name", "id")
}

/// The relationships of a workbook: identifiers with their targets, in order.
pub fn relationships_by_id(rels_xml: &str) -> (relationships: Result<
    Vec<(String, String)>,
    XlsxError,
>)
    ensures
        pairs_result(relationships) == document_pairs(
            document_of(xml_items(rels_xml@)),
            "Relationship"@,
            "Id"@,
            "Target"@,
        ),
{
    pairs_of_document(&read_document(rels_xml), "Relationship", "Id", "Target")
}

/// The value that a list of pairs gives a key: that of the last pair with it.
pub open spec fn last_value<V>(pairs: Seq<(Seq<char>, V)>, key: Seq<char>) -> Option<V>
    decreases pairs.len(),
{
    if pairs.len() == 0 {
        None
    } else if pairs.last().0 == key {
        Some(pairs.last().1)
    } else {
        last_value(pairs.drop_last(), key)
    }
}

/// Looks a key up in a list of pairs; the last pair with it counts.
pub(crate) fn find_last<'a>(pairs: &'a Vec<(String, String)>, key: &str) -> (value: Option<&'a String>)
    ensures
        match value {
            Some(value) => last_value(pairs_view(pairs@), key@) == Some(value@),
            None => last_value(pairs_view(pairs@), key@) is None,
        },
{
    let ghost views = pairs_view(pairs@);
    let mut index: usize = pairs.len();
    assert(views.take(index as int) == views);
    while index > 0
        invariant
            index <= pairs@.len(),
            views == pairs_view(pairs@),
            last_value(views, key@) == last_value(views.take(index as int), key@),
        decreases index,
    {
        let ghost shorter = views.take(index as int);
        assert(shorter.drop_last() == views.take(index - 1));
        index -= 1;
        if same_text(pairs[index].0.as_str(), key) {
            return Some(&pairs[index].1);
        }
    }
    None
}

/// The archive path of a relationship's target: a target is relative to the
/// folder `xl` unless it begins with that folder or with a slash.
pub open spec fn target_path(target: Seq<char>) -> Seq<char> {
    if begins_with(target, "xl/"@) {
        target
    } else if target.len() > 0 && target[0] == '/' {
        target.skip(1)
    } else {
        "xl/"@ + target
    }
}

/// The archive path of a relationship's target.
pub fn normalize_workbook_target(target: &str) -> (path: String)
    ensures
        path@ == target_path(target@),
{
    let chars = to_chars(target);
    if starts_with(&chars, "xl/") {
        return target.to_owned();
    }
    if chars.len() > 0 && chars[0] == '/' {
        let path = text_from(&chars, 1, chars.len());
        assert(path@ == target@.skip(1));
        return path;
    }
    let mut path = "xl/".to_owned();
    path.push_str(target);
    path
}

/// The archive paths of sheets, or the first relationship that is missing.
pub open spec fn resolved_paths(
    sheets: Seq<(Seq<char>, Seq<char>)>,
    relationships: Seq<(Seq<char>, Seq<char>)>,
) -> Result<Seq<(Seq<char>, Seq<char>)>, XlsxErrorView>
    decreases sheets.len(),
{
    if sheets.len() == 0 {
        Ok(Seq::empty())
    } else {
        match resolved_paths(sheets.drop_last(), relationships) {
            Err(error) => Err(error),
            Ok(paths) => match last_value(relationships, sheets.last().1) {
                None => Err(XlsxErrorView::MissingRelationship(sheets.last().1)),
                Some(target) => Ok(paths.push((sheets.last().0, target_path(target)))),
            },
        }
    }
}

/// A missing relationship in a part of the sheets is missing for them all.
proof fn lemma_resolved_paths_error(
    sheets: Seq<(Seq<char>, Seq<char>)>,
    length: int,
    relationships: Seq<(Seq<char>, Seq<char>)>,
)
    requires
        0 <= length <= sheets.len(),
        resolved_paths(sheets.take(length), relationships) is Err,
    ensures
        resolved_paths(sheets, relationships) == resolved_paths(sheets.take(length), relationships),
    decreases sheets.len() - length,
{
    if length == sheets.len() {
        assert(sheets.take(length) == sheets);
    } else {
        assert(sheets.take(length + 1).drop_last() == sheets.take(length));
        lemma_resolved_paths_error(sheets, length + 1, relationships);
    }
}

/// Follows the relationships of sheets to their archive paths.
pub fn resolve_paths(
    sheets: &Vec<(String, String)>,
    relationships: &Vec<(String, String)>,
) -> (paths: Result<Vec<(String, String)>, XlsxError>)
    ensures
        pairs_result(paths) == resolved_paths(pairs_view(sheets@), pairs_view(relationships@)),
{
    let ghost views = pairs_view(sheets@);
    let ghost related = pairs_view(relationships@);
    let mut paths: Vec<(String, String)> = Vec::new();
    assert(pairs_view(paths@) == Seq::<(Seq<char>, Seq<char>)>::empty());
    let mut index: usize = 0;
    while index < sheets.len()
        invariant
            index <= sheets@.len(),
            views == pairs_view(sheets@),
            related == pairs_view(relationships@),
            resolved_paths(views.take(index as int), related) == Ok::<_, XlsxErrorView>(
                pairs_view(paths@),
            ),
        decreases sheets@.len() - index,
    {
        let ghost longer = views.take(index + 1);
        proof {
            assert(longer.drop_last() == views.take(index as int));
            if resolved_paths(longer, related) is Err {
                lemma_resolved_paths_error(views, index + 1, related);
            }
        }
        let relationship = &sheets[index].1;
        match find_last(relationships, relationship.as_str()) {
            None => {
                return Err(XlsxError::MissingRelationship(relationship.clone()));
            },
            Some(target) => {
                let ghost before = paths@;
                let path = normalize_workbook_target(target.as_str());
                let name = sheets[index].0.clone();
                paths.push((name, path));
                assert(pairs_view(paths@) == pairs_view(before).push((name@, path@)));
            },
        }
        index += 1;
    }
    assert(views.take(index as int) == views);
    Ok(paths)
}

/// The text of a part that the package may lack.
pub open spec fn optional_part(parts: Parts, path: Seq<char>) -> Result<
    Option<Seq<char>>,
    XlsxErrorView,
> {
    if parts.contains_key(path) {
        match parts[path] {
            Ok(text) => Ok(Some(text)),
            Err(message) => Err(XlsxErrorView::UnreadablePart(path, message)),
        }
    } else {
        Ok(None)
    }
}

/// The text of a part that the package must have.
pub open spec fn required_part(parts: Parts, path: Seq<char>) -> Result<Seq<char>, XlsxErrorView> {
    match optional_part(parts, path) {
        Err(error) => Err(error),
        Ok(Some(text)) => Ok(text),
        Ok(None) => Err(XlsxErrorView::MissingPart(path)),
    }
}

/// The text of a part of the archive, where there is one.
fn read_zip_text(archive: &mut zip::ZipArchive<Cursor<Vec<u8>>>, path: &str) -> (text: Result<
    Option<String>,
    XlsxError,
>)
    ensures
        parts_of(final(archive)) == parts_of(old(archive)),
        attribute_result(text) == optional_part(parts_of(old(archive)), path@),
{
    match read_part(archive, path) {
        Ok(text) => Ok(text),
        Err(message) => Err(XlsxError::UnreadablePart(path.to_owned(), message)),
    }
}

/// The text of a part of the archive that has to be there.
fn read_required_text(archive: &mut zip::ZipArchive<Cursor<Vec<u8>>>, path: &str) -> (text: Result<
    String,
    XlsxError,
>)
    ensures
        parts_of(final(archive)) == parts_of(old(archive)),
        viewed_result(text) == required_part(parts_of(old(archive)), path@),
{
    match read_zip_text(archive, path) {
        Err(error) => Err(error),
        Ok(Some(text)) => Ok(text),
        Ok(None) => Err(XlsxError::MissingPart(path.to_owned())),
    }
}

/// The cell styles of a package; none where it has no style sheet.
pub open spec fn package_styles(parts: Parts) -> Result<Seq<XlsxCellStyle>, XlsxErrorView> {
    match optional_part(parts, "xl/styles.xml"@) {
        Err(error) => Err(error),
        Ok(None) => Ok(Seq::empty()),
        Ok(Some(text)) => document_styles(document_of(xml_items(text))),
    }
}

/// The sheets of a package with the archive paths of their parts.
pub open spec fn package_sheets(parts: Parts) -> Result<
    Seq<(Seq<char>, Seq<char>)>,
    XlsxErrorView,
> {
    match (
        required_part(parts, "xl/workbook.xml"@),
        required_part(parts, "xl/_rels/workbook.xml.rels"@),
    ) {
        (Err(error), _) => Err(error),
        (_, Err(error)) => Err(error),
        (Ok(workbook), Ok(rels)) => match (
            document_pairs(
                document_of(xml_items(rels)),
                "Relationship"@,
                "Id"@,
                "Target"@,
            ),
            document_pairs(document_of(xml_items(workbook)), "sheet"@, "name"@, "id"@),
        ) {
            (Err(error), _) => Err(error),
            (_, Err(error)) => Err(error),
            (Ok(relationships), Ok(sheets)) => match resolved_paths(sheets, relationships) {
                Err(error) => Err(error),
                Ok(paths) => if paths.len() == 0 {
                    Err(XlsxErrorView::NoSheets)
                } else {
                    Ok(paths)
                },
            },
        },
    }
}

/// What a package says of the sheet at an archive path; nothing where the part
/// is missing.
pub open spec fn part_metadata(
    parts: Parts,
    path: Seq<char>,
    styles: Seq<XlsxCellStyle>,
) -> Result<SheetMetadataView, XlsxErrorView> {
    match optional_part(parts, path) {
        Err(error) => Err(error),
        Ok(None) => Ok(SheetMetadataView::initial()),
        Ok(Some(text)) => document_metadata(document_of(xml_items(text)), styles),
    }
}

/// What a package says of each of the sheets, or the first error.
pub open spec fn sheets_metadata(
    parts: Parts,
    sheets: Seq<(Seq<char>, Seq<char>)>,
    styles: Seq<XlsxCellStyle>,
) -> Result<Seq<(Seq<char>, SheetMetadataView)>, XlsxErrorView>
    decreases sheets.len(),
{
    if sheets.len() == 0 {
        Ok(Seq::empty())
    } else {
        match (
            sheets_metadata(parts, sheets.drop_last(), styles),
            part_metadata(parts, sheets.last().1, styles),
        ) {
            (Err(error), _) => Err(error),
            (_, Err(error)) => Err(error),
            (Ok(earlier), Ok(metadata)) => Ok(earlier.push((sheets.last().0, metadata))),
        }
    }
}

/// An error in a part of the sheets is the error of them all.
proof fn lemma_sheets_metadata_error(
    parts: Parts,
    sheets: Seq<(Seq<char>, Seq<char>)>,
    length: int,
    styles: Seq<XlsxCellStyle>,
)
    requires
        0 <= length <= sheets.len(),
        sheets_metadata(parts, sheets.take(length), styles) is Err,
    ensures
        sheets_metadata(parts, sheets, styles) == sheets_metadata(
            parts,
            sheets.take(length),
            styles,
        ),
    decreases sheets.len() - length,
{
    if length == sheets.len() {
        assert(sheets.take(length) == sheets);
    } else {
        assert(sheets.take(length + 1).drop_last() == sheets.take(length));
        lemma_sheets_metadata_error(parts, sheets, length + 1, styles);
    }
}

/// What the parts of a package say of its sheets.
pub open spec fn package_metadata(parts: Parts) -> Result<
    Seq<(Seq<char>, SheetMetadataView)>,
    XlsxErrorView,
> {
    match package_styles(parts) {
        Err(error) => Err(error),
        Ok(styles) => match package_sheets(parts) {
            Err(error) => Err(error),
            Ok(sheets) => sheets_metadata(parts, sheets, styles),
        },
    }
}

/// What the package that some bytes are says of its sheets.
pub open spec fn bytes_metadata(bytes: Seq<u8>) -> Result<
    Seq<(Seq<char>, SheetMetadataView)>,
    XlsxErrorView,
> {
    match archive_parts(bytes) {
        Err(message) => Err(XlsxErrorView::Archive(message)),
        Ok(parts) => package_metadata(parts),
    }
}

/// What a package says of its sheets besides their values.
pub struct XlsxMetadata {
    sheets: Vec<(String, SheetMetadata)>,
    fallback: SheetMetadata,
}

/// The content of a list of named sheets.
pub open spec fn named_view(sheets: Seq<(String, SheetMetadata)>) -> Seq<
    (Seq<char>, SheetMetadataView),
> {
    sheets.map_values(|sheet: (String, SheetMetadata)| (sheet.0@, sheet.1@))
}

impl View for XlsxMetadata {
    type V = Seq<(Seq<char>, SheetMetadataView)>;

    closed spec fn view(&self) -> Seq<(Seq<char>, SheetMetadataView)> {
        named_view(self.sheets@)
    }
}

/// What is known of the sheet of the given name: what was read last, or nothing.
pub open spec fn named_metadata(
    sheets: Seq<(Seq<char>, SheetMetadataView)>,
    name: Seq<char>,
) -> SheetMetadataView {
    match last_value(sheets, name) {
        Some(metadata) => metadata,
        None => SheetMetadataView::initial(),
    }
}

/// Finds the sheets of a package and the archive paths of their parts.
fn workbook_sheet_paths(archive: &mut zip::ZipArchive<Cursor<Vec<u8>>>) -> (paths: Result<
    Vec<(String, String)>,
    XlsxError,
>)
    ensures
        parts_of(final(archive)) == parts_of(old(archive)),
        pairs_result(paths) == package_sheets(parts_of(old(archive))),
{
    let workbook_xml = match read_required_text(archive, "xl/workbook.xml") {
        Err(error) => {
            return Err(error);
        },
        Ok(text) => text,
    };
    let rels_xml = match read_required_text(archive, "xl/_rels/workbook.xml.rels") {
        Err(error) => {
            return Err(error);
        },
        Ok(text) => text,
    };
    let relationships = match relationships_by_id(rels_xml.as_str()) {
        Err(error) => {
            return Err(error);
        },
        Ok(relationships) => relationships,
    };
    let sheets = match workbook_sheet_relationships(workbook_xml.as_str()) {
        Err(error) => {
            return Err(error);
        },
        Ok(sheets) => sheets,
    };
    match resolve_paths(&sheets, &relationships) {
        Err(error) => Err(error),
        Ok(paths) => if paths.len() == 0 {
            Err(XlsxError::NoSheets)
        } else {
            Ok(paths)
        },
    }
}

/// Reads the cell styles of a package.
fn package_cell_styles(archive: &mut zip::ZipArchive<Cursor<Vec<u8>>>) -> (styles: Result<
    Vec<XlsxCellStyle>,
    XlsxError,
>)
    ensures
        parts_of(final(archive)) == parts_of(old(archive)),
        styles_result(styles) == package_styles(parts_of(old(archive))),
{
    match read_zip_text(archive, "xl/styles.xml") {
        Err(error) => Err(error),
        Ok(None) => Ok(Vec::new()),
        Ok(Some(text)) => read_styles(text.as_str()),
    }
}

/// Reads what a package says of the sheet at an archive path.
fn part_sheet_metadata(
    archive: &mut zip::ZipArchive<Cursor<Vec<u8>>>,
    path: &str,
    styles: &Vec<XlsxCellStyle>,
) -> (metadata: Result<SheetMetadata, XlsxError>)
    ensures
        parts_of(final(archive)) == parts_of(old(archive)),
        viewed_result(metadata) == part_metadata(
            parts_of(old(archive)),
            path@,
            styles@,
        ),
{
    match read_zip_text(archive, path) {
        Err(error) => Err(error),
        Ok(None) => Ok(SheetMetadata::default()),
        Ok(Some(text)) => read_sheet_metadata(text.as_str(), styles),
    }
}

impl XlsxMetadata {
    #[verifier::type_invariant]
    spec fn fallback_says_nothing(self) -> bool {
        self.fallback@ == SheetMetadataView::initial()
    }

    /// Reads what the package that some bytes are says of its sheets.
    pub fn read(bytes: Vec<u8>) -> (metadata: Result<XlsxMetadata, XlsxError>)
        ensures
            viewed_result(metadata) == bytes_metadata(bytes@),
    {
        let mut archive = match open_archive(bytes) {
            Err(message) => {
                return Err(XlsxError::Archive(message));
            },
            Ok(archive) => archive,
        };
        let ghost parts = parts_of(&archive);
        let styles = match package_cell_styles(&mut archive) {
            Err(error) => {
                return Err(error);
            },
            Ok(styles) => styles,
        };
        let paths = match workbook_sheet_paths(&mut archive) {
            Err(error) => {
                return Err(error);
            },
            Ok(paths) => paths,
        };
        let ghost views = pairs_view(paths@);
        let mut sheets: Vec<(String, SheetMetadata)> = Vec::new();
        assert(named_view(sheets@) == Seq::<(Seq<char>, SheetMetadataView)>::empty());
        let mut index: usize = 0;
        while index < paths.len()
            invariant
                index <= paths@.len(),
                views == pairs_view(paths@),
                parts == parts_of(&archive),
                bytes_metadata(bytes@) == sheets_metadata(parts, views, styles@),
                sheets_metadata(parts, views.take(index as int), styles@) == Ok::<
                    _,
                    XlsxErrorView,
                >(named_view(sheets@)),
            decreases paths@.len() - index,
        {
            proof {
                let longer = views.take(index + 1);
                assert(longer.drop_last() == views.take(index as int));
                if sheets_metadata(parts, longer, styles@) is Err {
                    lemma_sheets_metadata_error(parts, views, index + 1, styles@);
                }
            }
            match part_sheet_metadata(&mut archive, paths[index].1.as_str(), &styles) {
                Err(error) => {
                    return Err(error);
                },
                Ok(metadata) => {
                    let ghost before = sheets@;
                    let name = paths[index].0.clone();
                    sheets.push((name, metadata));
                    assert(named_view(sheets@) == named_view(before).push((name@, metadata@)));
                },
            }
            index += 1;
        }
        assert(views.take(index as int) == views);
        Ok(XlsxMetadata { sheets, fallback: SheetMetadata::default() })
    }

    /// What is known of the sheet of the given name.
    pub fn sheet_metadata(&self, sheet_name: &str) -> (metadata: &SheetMetadata)
        ensures
            metadata@ == named_metadata(self@, sheet_name@),
    {
        proof {
            use_type_invariant(self);
        }
        let ghost views = named_view(self.sheets@);
        let mut index: usize = self.sheets.len();
        assert(views.take(index as int) == views);
        while index > 0
            invariant
                index <= self.sheets@.len(),
                views == named_view(self.sheets@),
                last_value(views, sheet_name@) == last_value(views.take(index as int), sheet_name@),
            decreases index,
        {
            let ghost shorter = views.take(index as int);
            assert(shorter.drop_last() == views.take(index - 1));
            index -= 1;
            if same_text(self.sheets[index].0.as_str(), sheet_name) {
                return &self.sheets[index].1;
            }
        }
        &self.fallback
    }
}

/// Where a key is given several times, the last value counts; other keys are not touched, and a
/// key that was never given has no value.
pub proof fn the_last_value_counts<V>(
    pairs: Seq<(Seq<char>, V)>,
    key: Seq<char>,
    value: V,
    other: Seq<char>,
)
    requires
        other != key,
    ensures
        last_value(pairs.push((key, value)), key) == Some(value),
        last_value(pairs.push((key, value)), other) == last_value(pairs, other),
        last_value(pairs, key) is None <==> forall|i: int|
            0 <= i < pairs.len() ==> (#[trigger] pairs[i]).0 != key,
    decreases pairs.len(),
{
    assert(pairs.push((key, value)).drop_last() =~= pairs);
    if pairs.len() > 0 {
        let fewer = pairs.drop_last();
        the_last_value_counts(fewer, key, value, other);
        if last_value(pairs, key) is None {
            assert forall|i: int| 0 <= i < pairs.len() implies (#[trigger] pairs[i]).0 != key by {
                if i < fewer.len() {
                    assert(fewer[i] == pairs[i]);
                }
            }
        } else if pairs.last().0 != key {
            let i = choose|i: int| 0 <= i < fewer.len() && (#[trigger] fewer[i]).0 == key;
            assert(pairs[i].0 == key);
        } else {
            assert(pairs[pairs.len() - 1].0 == key);
        }
    }
}

/// A part of the workbook's folder may be named from there, from the root of the package, or
/// with a slash in front: it is the same part.
pub proof fn targets_name_the_same_part(rest: Seq<char>)
    requires
        rest.len() > 0,
        rest[0] != '/',
        !(rest.len() >= 3 && rest[0] == 'x' && rest[1] == 'l' && rest[2] == '/'),
    ensures
        target_path(rest) == seq!['x', 'l', '/'] + rest,
        target_path(seq!['x', 'l', '/'] + rest) == seq!['x', 'l', '/'] + rest,
        target_path(seq!['/', 'x', 'l', '/'] + rest) == seq!['x', 'l', '/'] + rest,
        target_path(seq!['/'] + rest) == rest,
{
    reveal_strlit("xl/");
    let folder = seq!['x', 'l', '/'];
    assert("xl/"@ =~= folder);
    let (inner, rooted) = (folder + rest, seq!['/'] + folder + rest);
    assert(inner.take(3) =~= folder);
    assert(seq!['/', 'x', 'l', '/'] + rest =~= rooted);
    assert(rooted.skip(1) =~= inner);
    assert(rooted[0] == '/');
    assert((seq!['/'] + rest)[0] == '/');
    assert((seq!['/'] + rest).skip(1) =~= rest);
    if rest.len() >= 3 {
        assert(rest.take(3)[0] == rest[0] && rest.take(3)[1] == rest[1] && rest.take(3)[2]
            == rest[2]);
    }
    if begins_with(rest, folder) {
        assert(rest.take(3) =~= folder);
    }
    if begins_with(rooted, folder) {
        assert(rooted.take(3)[0] == folder[0]);
    }
    if begins_with(seq!['/'] + rest, folder) {
        assert((seq!['/'] + rest).take(3)[0] == folder[0]);
    }
}

/// Each sheet keeps its place and its name and gets the part that its relationship leads to; a
/// relationship that is missing fails them all.
pub proof fn sheets_lead_to_their_parts(
    sheets: Seq<(Seq<char>, Seq<char>)>,
    relationships: Seq<(Seq<char>, Seq<char>)>,
    index: int,
)
    requires
        0 <= index < sheets.len(),
    ensures
        resolved_paths(sheets, relationships) is Ok ==> ({
            let paths = resolved_paths(sheets, relationships)->Ok_0;
            &&& paths.len() == sheets.len()
            &&& paths[index].0 == sheets[index].0
            &&& last_value(relationships, sheets[index].1) is Some
            &&& paths[index].1 == target_path(last_value(relationships, sheets[index].1)->0)
        }),
        last_value(relationships, sheets[index].1) is None ==> resolved_paths(sheets, relationships)
            is Err,
    decreases sheets.len(),
{
    let fewer = sheets.drop_last();
    if index < fewer.len() {
        sheets_lead_to_their_parts(fewer, relationships, index);
        assert(fewer[index] == sheets[index]);
    } else {
        assert(sheets.last() == sheets[index]);
        lemma_paths_length(fewer, relationships);
    }
}

proof fn lemma_paths_length(
    sheets: Seq<(Seq<char>, Seq<char>)>,
    relationships: Seq<(Seq<char>, Seq<char>)>,
)
    ensures
        resolved_paths(sheets, relationships) is Ok ==> resolved_paths(
            sheets,
            relationships,
        )->Ok_0.len() == sheets.len(),
    decreases sheets.len(),
{
    if sheets.len() > 0 {
        lemma_paths_length(sheets.drop_last(), relationships);
    }
}

/// A tag with the wanted name and both attributes adds their values behind the earlier ones,
/// whether it has content or not; every other event adds nothing.
pub proof fn wanted_tags_add_their_pair(
    events: Seq<XmlEventView>,
    tag: XmlTagView,
    element: Seq<char>,
    first: Seq<char>,
    second: Seq<char>,
)
    requires
        event_pairs(events, element, first, second) is Ok,
        tag.attribute(first) is Ok,
        tag.attribute(second) is Ok,
    ensures
        ({
            let before = event_pairs(events, element, first, second);
            let started = event_pairs(
                events.push(XmlEventView::Start(tag)),
                element,
                first,
                second,
            );
            let empty = event_pairs(events.push(XmlEventView::Empty(tag)), element, first, second);
            let (one, other) = (tag.attribute(first)->Ok_0, tag.attribute(second)->Ok_0);
            &&& started == empty
            &&& tag.local_name == element && one is Some && other is Some ==> started == Ok::<
                Seq<(Seq<char>, Seq<char>)>,
                XlsxErrorView,
            >(before->Ok_0.push((one->0, other->0)))
            &&& tag.local_name != element || one is None || other is None ==> started == before
            &&& event_pairs(
                events.push(XmlEventView::End(tag.local_name)),
                element,
                first,
                second,
            ) == before
            &&& event_pairs(events.push(XmlEventView::Other), element, first, second) == before
        }),
{
    assert(events.push(XmlEventView::Start(tag)).drop_last() =~= events);
    assert(events.push(XmlEventView::Empty(tag)).drop_last() =~= events);
    assert(events.push(XmlEventView::End(tag.local_name)).drop_last() =~= events);
    assert(events.push(XmlEventView::Other).drop_last() =~= events);
}

/// A part is read as it is; only where it is required does it fail to be missing, and one that
/// cannot be read always fails.
pub proof fn missing_parts_fail_where_required(parts: Parts, path: Seq<char>)
    ensures
        parts.contains_key(path) && parts[path] is Ok ==> optional_part(parts, path) == Ok::<
            Option<Seq<char>>,
            XlsxErrorView,
        >(Some(parts[path]->Ok_0)) && required_part(parts, path) == Ok::<
            Seq<char>,
            XlsxErrorView,
        >(parts[path]->Ok_0),
        parts.contains_key(path) && parts[path] is Err ==> optional_part(parts, path) is Err
            && required_part(parts, path) is Err,
        !parts.contains_key(path) ==> optional_part(parts, path) == Ok::<
            Option<Seq<char>>,
            XlsxErrorView,
        >(None) && required_part(parts, path) is Err,
        package_styles(parts) is Ok && !parts.contains_key("xl/styles.xml"@) ==> package_styles(
            parts,
        )->Ok_0.len() == 0,
{
}

/// Each sheet keeps its place and its name and gets what its own part says.
pub proof fn sheets_get_what_their_parts_say(
    parts: Parts,
    sheets: Seq<(Seq<char>, Seq<char>)>,
    styles: Seq<XlsxCellStyle>,
    index: int,
)
    requires
        0 <= index < sheets.len(),
    ensures
        sheets_metadata(parts, sheets, styles) is Ok ==> ({
            let metadata = sheets_metadata(parts, sheets, styles)->Ok_0;
            &&& metadata.len() == sheets.len()
            &&& metadata[index].0 == sheets[index].0
            &&& part_metadata(parts, sheets[index].1, styles) == Ok::<
                SheetMetadataView,
                XlsxErrorView,
            >(metadata[index].1)
        }),
        part_metadata(parts, sheets[index].1, styles) is Err ==> sheets_metadata(
            parts,
            sheets,
            styles,
        ) is Err,
    decreases sheets.len(),
{
    let fewer = sheets.drop_last();
    if index < fewer.len() {
        sheets_get_what_their_parts_say(parts, fewer, styles, index);
        assert(fewer[index] == sheets[index]);
    } else {
        assert(sheets.last() == sheets[index]);
        lemma_metadata_length(parts, fewer, styles);
    }
}

proof fn lemma_metadata_length(
    parts: Parts,
    sheets: Seq<(Seq<char>, Seq<char>)>,
    styles: Seq<XlsxCellStyle>,
)
    ensures
        sheets_metadata(parts, sheets, styles) is Ok ==> sheets_metadata(
            parts,
            sheets,
            styles,
        )->Ok_0.len() == sheets.len(),
    decreases sheets.len(),
{
    if sheets.len() > 0 {
        lemma_metadata_length(parts, sheets.drop_last(), styles);
    }
}

/// What is known of a sheet is found by its name; of a sheet with another name nothing is
/// known.
pub proof fn metadata_is_found_by_name(
    sheets: Seq<(Seq<char>, SheetMetadataView)>,
    name: Seq<char>,
    metadata: SheetMetadataView,
)
    ensures
        named_metadata(sheets.push((name, metadata)), name) == metadata,
        (forall|i: int| 0 <= i < sheets.len() ==> (#[trigger] sheets[i]).0 != name)
            ==> named_metadata(sheets, name) == SheetMetadataView::initial(),
{
    let other = name.push('x');
    assert(other.len() != name.len());
    the_last_value_counts(sheets, name, metadata, other);
}

/// Whether tags bear a name and two attributes.
pub open spec fn bear_attributes(
    tags: Seq<XmlTagView>,
    element: Seq<char>,
    first: Seq<char>,
    second: Seq<char>,
) -> bool {
    forall|i: int|
        0 <= i < tags.len() ==> (#[trigger] tags[i]).local_name == element && tags[i].attribute(
            first,
        ) is Ok && tags[i].attribute(first)->Ok_0 is Some && tags[i].attribute(second) is Ok
            && tags[i].attribute(second)->Ok_0 is Some
}

proof fn lemma_tag_pairs(
    tags: Seq<XmlTagView>,
    element: Seq<char>,
    first: Seq<char>,
    second: Seq<char>,
)
    requires
        bear_attributes(tags, element, first, second),
    ensures
        event_pairs(empty_tags(tags), element, first, second) == Ok::<
            Seq<(Seq<char>, Seq<char>)>,
            XlsxErrorView,
        >(
            Seq::new(
                tags.len(),
                |i: int|
                    (tags[i].attribute(first)->Ok_0->0, tags[i].attribute(second)->Ok_0->0),
            ),
        ),
    decreases tags.len(),
{
    let pairs = Seq::new(
        tags.len(),
        |i: int| (tags[i].attribute(first)->Ok_0->0, tags[i].attribute(second)->Ok_0->0),
    );
    let events = empty_tags(tags);
    if tags.len() == 0 {
        assert(pairs =~= Seq::empty());
    } else {
        let fewer = tags.drop_last();
        assert(bear_attributes(fewer, element, first, second)) by {
            assert forall|i: int| 0 <= i < fewer.len() implies (#[trigger] fewer[i]).local_name
                == element && fewer[i].attribute(first) is Ok && fewer[i].attribute(first)->Ok_0
                is Some && fewer[i].attribute(second) is Ok && fewer[i].attribute(second)->Ok_0
                is Some by {
                assert(fewer[i] == tags[i]);
            }
        }
        lemma_tag_pairs(fewer, element, first, second);
        assert(events.drop_last() =~= empty_tags(fewer));
        let tag = tags[tags.len() - 1];
        assert(tag.local_name == element);
        assert(events.last() == XmlEventView::Empty(tag));
        let earlier = Seq::new(
            fewer.len(),
            |i: int| (fewer[i].attribute(first)->Ok_0->0, fewer[i].attribute(second)->Ok_0->0),
        );
        assert(pairs =~= earlier.push(
            (tag.attribute(first)->Ok_0->0, tag.attribute(second)->Ok_0->0),
        ));
    }
}

/// A package's sheets are those that its workbook lists, each with its name, and with the part
/// that the relationship with the sheet's identifier targets.
pub proof fn workbooks_list_their_sheets(
    parts: Parts,
    workbook: Seq<char>,
    rels: Seq<char>,
    sheets: Seq<XmlTagView>,
    relationships: Seq<XmlTagView>,
    index: int,
)
    requires
        parts.contains_key("xl/workbook.xml"@),
        parts["xl/workbook.xml"@] == Ok::<Seq<char>, Seq<char>>(workbook),
        parts.contains_key("xl/_rels/workbook.xml.rels"@),
        parts["xl/_rels/workbook.xml.rels"@] == Ok::<Seq<char>, Seq<char>>(rels),
        document_of(xml_items(workbook)) == (XmlDocumentView {
            events: empty_tags(sheets),
            error: None,
        }),
        document_of(xml_items(rels)) == (XmlDocumentView {
            events: empty_tags(relationships),
            error: None,
        }),
        bear_attributes(sheets, "sheet"@, "name"@, "id"@),
        bear_attributes(relationships, "Relationship"@, "Id"@, "Target"@),
        0 <= index < sheets.len(),
    ensures
        package_sheets(parts) is Ok ==> ({
            let listed = package_sheets(parts)->Ok_0;
            &&& listed.len() == sheets.len()
            &&& listed[index].0 == sheets[index].attribute("name"@)->Ok_0->0
            &&& exists|k: int|
                0 <= k < relationships.len() && (#[trigger] relationships[k]).attribute(
                    "Id"@,
                )->Ok_0->0 == sheets[index].attribute("id"@)->Ok_0->0 && listed[index].1
                    == target_path(relationships[k].attribute("Target"@)->Ok_0->0)
        }),
        (forall|k: int|
            0 <= k < relationships.len() ==> (#[trigger] relationships[k]).attribute(
                "Id"@,
            )->Ok_0->0 != sheets[index].attribute("id"@)->Ok_0->0) ==> package_sheets(parts) is Err,
{
    lemma_tag_pairs(sheets, "sheet"@, "name"@, "id"@);
    lemma_tag_pairs(relationships, "Relationship"@, "Id"@, "Target"@);
    let named = Seq::new(
        sheets.len(),
        |i: int|
            (sheets[i].attribute("name"@)->Ok_0->0, sheets[i].attribute("id"@)->Ok_0->0),
    );
    let targets = Seq::new(
        relationships.len(),
        |i: int|
            (
                relationships[i].attribute("Id"@)->Ok_0->0,
                relationships[i].attribute("Target"@)->Ok_0->0,
            ),
    );
    sheets_lead_to_their_parts(named, targets, index);
    let id = named[index].1;
    lemma_value_is_from_a_pair(targets, id);
    if last_value(targets, id) is Some {
        let k = choose|k: int|
            0 <= k < targets.len() && (#[trigger] targets[k]).0 == id && targets[k].1 == last_value(
                targets,
                id,
            )->0;
        assert(relationships[k].attribute("Id"@)->Ok_0->0 == id);
    }
}

proof fn lemma_value_is_from_a_pair(pairs: Seq<(Seq<char>, Seq<char>)>, key: Seq<char>)
    ensures
        last_value(pairs, key) is Some ==> exists|k: int|
            0 <= k < pairs.len() && (#[trigger] pairs[k]).0 == key && pairs[k].1 == last_value(
                pairs,
                key,
            )->0,
    decreases pairs.len(),
{
    if pairs.len() > 0 {
        if pairs.last().0 == key {
            assert(pairs[pairs.len() - 1].0 == key);
        } else {
            let fewer = pairs.drop_last();
            lemma_value_is_from_a_pair(fewer, key);
            if last_value(fewer, key) is Some {
                let k = choose|k: int|
                    0 <= k < fewer.len() && (#[trigger] fewer[k]).0 == key && fewer[k].1
                        == last_value(fewer, key)->0;
                assert(pairs[k] == fewer[k]);
            }
        }
    }
}

/// Each sheet of a package is described by its own part, with the cell styles of the package.
pub proof fn packages_apply_their_styles(parts: Parts, index: int)
    requires
        package_metadata(parts) is Ok,
        0 <= index < package_metadata(parts)->Ok_0.len(),
    ensures
        package_styles(parts) is Ok,
        package_sheets(parts) is Ok,
        package_metadata(parts)->Ok_0.len() == package_sheets(parts)->Ok_0.len(),
        package_metadata(parts)->Ok_0[index].0 == package_sheets(parts)->Ok_0[index].0,
        part_metadata(
            parts,
            package_sheets(parts)->Ok_0[index].1,
            package_styles(parts)->Ok_0,
        ) == Ok::<SheetMetadataView, XlsxErrorView>(package_metadata(parts)->Ok_0[index].1),
{
    let sheets = package_sheets(parts)->Ok_0;
    lemma_metadata_length(parts, sheets, package_styles(parts)->Ok_0);
    sheets_get_what_their_parts_say(parts, sheets, package_styles(parts)->Ok_0, index);
}

} // verus!
