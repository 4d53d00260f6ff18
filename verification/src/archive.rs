//! The ZIP archive that an XLSX package is.

use std::io::{BufRead, BufReader, Cursor, Read};

use vstd::prelude::*;

verus! {

/// The archive reader of `zip`.
#[verifier::external_type_specification]
#[verifier::external_body]
#[verifier::reject_recursive_types(R)]
pub struct ExZipArchive<R>(zip::ZipArchive<R>);

/// Bytes with a reading position.
#[verifier::external_type_specification]
#[verifier::external_body]
#[verifier::reject_recursive_types(T)]
pub struct ExCursor<T>(std::io::Cursor<T>);

/// The parts of an archive: each name that can be opened, with the text of the
/// part or the reason why it cannot be read as text.
pub type Parts = Map<Seq<char>, Result<Seq<char>, Seq<char>>>;

/// The parts of the archive that some bytes are, or why they are none.
pub uninterp spec fn archive_parts(bytes: Seq<u8>) -> Result<Parts, Seq<char>>;

/// The parts of an open archive.
pub uninterp spec fn parts_of(archive: &zip::ZipArchive<Cursor<Vec<u8>>>) -> Parts;

/// The bytes that an archive was opened from.
pub uninterp spec fn archive_bytes(archive: &zip::ZipArchive<Cursor<Vec<u8>>>) -> Seq<u8>;

/// The names of the entries of the archive that some bytes are, in order, unless one is no
/// text.
pub uninterp spec fn entry_names(bytes: Seq<u8>) -> Option<Seq<Seq<char>>>;

/// Where the archive that some bytes are has its entry of a name, if it has one.
pub uninterp spec fn entry_index(bytes: Seq<u8>, name: Seq<char>) -> Option<usize>;

/// What can be read of an entry of the archive that some bytes are, up to and with the
/// first byte that no text in UTF-8 holds.
pub uninterp spec fn entry_content(bytes: Seq<u8>, index: usize) -> Seq<u8>;

/// `zip::ZipArchive::new`: opens the archive that the bytes are.
#[verifier::external_body]
pub(crate) fn open_archive(bytes: Vec<u8>) -> (archive: Result<
    zip::ZipArchive<Cursor<Vec<u8>>>,
    String,
>)
    ensures
        match archive {
            Ok(archive) => archive_parts(bytes@) == Ok::<Parts, Seq<char>>(parts_of(&archive))
                && archive_bytes(&archive) == bytes@,
            Err(message) => archive_parts(bytes@) == Err::<Parts, Seq<char>>(message@),
        },
{
    zip::ZipArchive::new(Cursor::new(bytes)).map_err(|error| error.to_string())
}

/// `zip::ZipArchive::by_name` and reading what it opens to the end: the text of
/// a part, `None` where no part of that name can be opened, the message where
/// the part cannot be read as text. The archive keeps its parts.
#[verifier::external_body]
pub(crate) fn read_part(archive: &mut zip::ZipArchive<Cursor<Vec<u8>>>, path: &str) -> (part:
    Result<Option<String>, String>)
    ensures
        parts_of(final(archive)) == parts_of(old(archive)),
        match part {
            Ok(Some(text)) => parts_of(old(archive)).contains_key(path@) && parts_of(
                old(archive),
            )[path@] == Ok::<Seq<char>, Seq<char>>(text@),
            Ok(None) => !parts_of(old(archive)).contains_key(path@),
            Err(message) => parts_of(old(archive)).contains_key(path@) && parts_of(
                old(archive),
            )[path@] == Err::<Seq<char>, Seq<char>>(message@),
        },
{
    let Ok(mut file) = archive.by_name(path) else {
        return Ok(None);
    };
    let mut contents = String::new();
    file.read_to_string(&mut contents).map_err(|error| error.to_string())?;
    Ok(Some(contents))
}

/// `zip::ZipArchive::file_names`: the names of the entries in order, `None` where one
/// cannot be made a text.
#[verifier::external_body]
pub(crate) fn read_names(archive: &zip::ZipArchive<Cursor<Vec<u8>>>) -> (names: Option<Vec<String>>)
    ensures
        match names {
            Some(names) => entry_names(archive_bytes(archive)) == Some(
                names@.map_values(|name: String| name@),
            ),
            None => entry_names(archive_bytes(archive)) is None,
        },
{
    archive.file_names().map(|name| name.ok().map(|name| name.into_owned())).collect()
}

/// `zip::ZipArchive::index_for_name`: where the entry of a name is.
#[verifier::external_body]
pub(crate) fn find_entry(archive: &zip::ZipArchive<Cursor<Vec<u8>>>, name: &str) -> (index: Option<
    usize,
>)
    ensures
        index == entry_index(archive_bytes(archive), name@),
{
    archive.index_for_name(name)
}

/// `zip::ZipArchive::by_index` and `BufRead::read_until` on what it opens, with the byte
/// 0xff: what a buffered reader gets of an entry up to its end, to where it cannot be read
/// on, or to the first such byte, which no text in UTF-8 holds. Nothing is got of an entry
/// that cannot be opened. The archive stays the same.
#[verifier::external_body]
pub(crate) fn read_entry(archive: &mut zip::ZipArchive<Cursor<Vec<u8>>>, index: usize) -> (content:
    Vec<u8>)
    ensures
        archive_bytes(final(archive)) == archive_bytes(old(archive)),
        content@ == entry_content(archive_bytes(old(archive)), index),
{
    let mut content = Vec::new();
    if let Ok(file) = archive.by_index(index) {
        let _ = BufReader::new(file).read_until(0xff, &mut content);
    }
    content
}

} // verus!
