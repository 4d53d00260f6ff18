//! What can go wrong when an XLSX package is read.

use vstd::prelude::*;

verus! {

/// Why an XLSX package could not be read.
#[derive(Debug)]
pub enum XlsxError {
    /// An XML part is malformed; the text says how.
    Xml(String),
    /// An XML attribute that should be a number is not one.
    InvalidNumber(String),
    /// A color whose alpha part ends inside a character.
    InvalidColor(String),
    /// A cell reference whose column does not fit the machine's word.
    ReferenceOverflow(String),
    /// The archive cannot be opened; the text says why.
    Archive(String),
    /// The archive has no entry of this name.
    MissingPart(String),
    /// An entry of the archive cannot be read as text.
    UnreadablePart(String, String),
    /// A sheet refers to a relationship that does not exist.
    MissingRelationship(String),
    /// The file is a compound file whose sectors lead astray.
    Compound,
    /// The package holds a reference, a count or a number format beyond what can be
    /// read.
    OutOfBounds,
    /// The workbook lists no sheets.
    NoSheets,
    /// The cell data cannot be opened; the text says why.
    Workbook(String),
    /// A sheet's cell data cannot be read: its name and the reason.
    UnreadableSheet(String, String),
}

/// The mathematical content of an [`XlsxError`].
#[verifier::ext_equal]
pub enum XlsxErrorView {
    Xml(Seq<char>),
    InvalidNumber(Seq<char>),
    InvalidColor(Seq<char>),
    ReferenceOverflow(Seq<char>),
    Archive(Seq<char>),
    MissingPart(Seq<char>),
    UnreadablePart(Seq<char>, Seq<char>),
    MissingRelationship(Seq<char>),
    Compound,
    OutOfBounds,
    NoSheets,
    Workbook(Seq<char>),
    UnreadableSheet(Seq<char>, Seq<char>),
}

impl View for XlsxError {
    type V = XlsxErrorView;

    open spec fn view(&self) -> XlsxErrorView {
        match self {
            XlsxError::Xml(text) => XlsxErrorView::Xml(text@),
            XlsxError::InvalidNumber(text) => XlsxErrorView::InvalidNumber(text@),
            XlsxError::InvalidColor(text) => XlsxErrorView::InvalidColor(text@),
            XlsxError::ReferenceOverflow(text) => XlsxErrorView::ReferenceOverflow(text@),
            XlsxError::Archive(text) => XlsxErrorView::Archive(text@),
            XlsxError::MissingPart(text) => XlsxErrorView::MissingPart(text@),
            XlsxError::UnreadablePart(path, text) => XlsxErrorView::UnreadablePart(path@, text@),
            XlsxError::MissingRelationship(text) => XlsxErrorView::MissingRelationship(text@),
            XlsxError::Compound => XlsxErrorView::Compound,
            XlsxError::OutOfBounds => XlsxErrorView::OutOfBounds,
            XlsxError::NoSheets => XlsxErrorView::NoSheets,
            XlsxError::Workbook(text) => XlsxErrorView::Workbook(text@),
            XlsxError::UnreadableSheet(name, text) => XlsxErrorView::UnreadableSheet(name@, text@),
        }
    }
}

impl XlsxErrorView {
    /// The sentence that reports the error.
    pub open spec fn message(self) -> Seq<char> {
        match self {
            XlsxErrorView::Xml(text) => text,
            XlsxErrorView::InvalidNumber(text) => "invalid numeric XML attribute value '"@ + text
                + "'"@,
            XlsxErrorView::InvalidColor(text) => "invalid color value '"@ + text + "'"@,
            XlsxErrorView::ReferenceOverflow(text) => "cell reference '"@ + text
                + "' is too large"@,
            XlsxErrorView::Archive(text) => text,
            XlsxErrorView::MissingPart(path) => "XLSX archive is missing "@ + path,
            XlsxErrorView::UnreadablePart(path, text) => "failed to read "@ + path
                + " from XLSX archive: "@ + text,
            XlsxErrorView::MissingRelationship(id) =>
                "XLSX workbook is missing sheet relationship "@ + id,
            XlsxErrorView::Compound =>
                "XLSX workbook is a compound file with sectors that lead astray"@,
            XlsxErrorView::OutOfBounds =>
                "XLSX workbook holds a reference, a count or a number format out of bounds"@,
            XlsxErrorView::NoSheets => "XLSX workbook does not contain any sheets"@,
            XlsxErrorView::Workbook(text) => text,
            XlsxErrorView::UnreadableSheet(name, text) => "failed to read sheet '"@ + name
                + "': "@ + text,
        }
    }
}

/// The content of a fallible result whose value is plain.
pub open spec fn plain_result<T>(result: Result<T, XlsxError>) -> Result<T, XlsxErrorView> {
    match result {
        Ok(value) => Ok(value),
        Err(error) => Err(error@),
    }
}

/// The content of a fallible result whose value has a view.
pub open spec fn viewed_result<T: View>(result: Result<T, XlsxError>) -> Result<
    T::V,
    XlsxErrorView,
> {
    match result {
        Ok(value) => Ok(value@),
        Err(error) => Err(error@),
    }
}

/// What is known after a step, or the step's error.
pub open spec fn step_result<V>(read: Result<(), XlsxError>, after: V) -> Result<V, XlsxErrorView> {
    match read {
        Ok(()) => Ok(after),
        Err(error) => Err(error@),
    }
}

/// Three texts in a row.
fn joined(first: &str, second: &str, third: &str) -> (text: String)
    ensures
        text@ == first@ + second@ + third@,
{
    let mut text = first.to_owned();
    text.push_str(second);
    text.push_str(third);
    text
}

impl XlsxError {
    /// The sentence that reports the error.
    pub fn message(&self) -> (message: String)
        ensures
            message@ == self@.message(),
    {
        match self {
            XlsxError::Xml(text) => text.clone(),
            XlsxError::InvalidNumber(text) => joined(
                "invalid numeric XML attribute value '",
                text.as_str(),
                "'",
            ),
            XlsxError::InvalidColor(text) => joined("invalid color value '", text.as_str(), "'"),
            XlsxError::ReferenceOverflow(text) => joined(
                "cell reference '",
                text.as_str(),
                "' is too large",
            ),
            XlsxError::Archive(text) => text.clone(),
            XlsxError::MissingPart(path) => {
                let mut text = "XLSX archive is missing ".to_owned();
                text.push_str(path.as_str());
                text
            },
            XlsxError::UnreadablePart(path, text) => {
                let mut message = joined("failed to read ", path.as_str(), " from XLSX archive: ");
                message.push_str(text.as_str());
                message
            },
            XlsxError::MissingRelationship(id) => {
                let mut text = "XLSX workbook is missing sheet relationship ".to_owned();
                text.push_str(id.as_str());
                text
            },
            XlsxError::Compound =>
                "XLSX workbook is a compound file with sectors that lead astray".to_owned(),
            XlsxError::OutOfBounds =>
                "XLSX workbook holds a reference, a count or a number format out of bounds".to_owned(),
            XlsxError::NoSheets => "XLSX workbook does not contain any sheets".to_owned(),
            XlsxError::Workbook(text) => text.clone(),
            XlsxError::UnreadableSheet(name, text) => {
                let mut message = joined("failed to read sheet '", name.as_str(), "': ");
                message.push_str(text.as_str());
                message
            },
        }
    }
}

/// A message names what it is about: the value, the part, the relationship or the sheet, and
/// what was said of it.
pub proof fn messages_name_what_failed(first: Seq<char>, second: Seq<char>)
    ensures
        XlsxErrorView::Xml(first).message() == first,
        XlsxErrorView::Archive(first).message() == first,
        XlsxErrorView::Workbook(first).message() == first,
        ({
            let message = XlsxErrorView::InvalidNumber(first).message();
            message.subrange(37, message.len() - 1) == first && message.last() == '\''
        }),
        ({
            let message = XlsxErrorView::InvalidColor(first).message();
            message.subrange(21, message.len() - 1) == first && message.last() == '\''
        }),
        ({
            let message = XlsxErrorView::ReferenceOverflow(first).message();
            message.subrange(16, message.len() - 14) == first
        }),
        ({
            let message = XlsxErrorView::MissingPart(first).message();
            message.skip(message.len() - first.len()) == first
        }),
        ({
            let message = XlsxErrorView::MissingRelationship(first).message();
            message.skip(message.len() - first.len()) == first
        }),
        ({
            let message = XlsxErrorView::UnreadablePart(first, second).message();
            &&& message.subrange(15, 15 + first.len() as int) == first
            &&& message.skip(message.len() - second.len()) == second
        }),
        ({
            let message = XlsxErrorView::UnreadableSheet(first, second).message();
            &&& message.subrange(22, 22 + first.len() as int) == first
            &&& message.skip(message.len() - second.len()) == second
        }),
{
    reveal_strlit("invalid numeric XML attribute value '");
    reveal_strlit("invalid color value '");
    reveal_strlit("'");
    reveal_strlit("cell reference '");
    reveal_strlit("' is too large");
    reveal_strlit("XLSX archive is missing ");
    reveal_strlit("XLSX workbook is missing sheet relationship ");
    reveal_strlit("failed to read ");
    reveal_strlit(" from XLSX archive: ");
    reveal_strlit("failed to read sheet '");
    reveal_strlit("': ");
    let number = XlsxErrorView::InvalidNumber(first).message();
    assert(number.subrange(37, number.len() - 1) =~= first);
    let color = XlsxErrorView::InvalidColor(first).message();
    assert(color.subrange(21, color.len() - 1) =~= first);
    let reference = XlsxErrorView::ReferenceOverflow(first).message();
    assert(reference.subrange(16, reference.len() - 14) =~= first);
    let part = XlsxErrorView::MissingPart(first).message();
    assert(part.skip(part.len() - first.len()) =~= first);
    let relationship = XlsxErrorView::MissingRelationship(first).message();
    assert(relationship.skip(relationship.len() - first.len()) =~= first);
    let unreadable = XlsxErrorView::UnreadablePart(first, second).message();
    assert(unreadable.subrange(15, 15 + first.len() as int) =~= first);
    assert(unreadable.skip(unreadable.len() - second.len()) =~= second);
    let sheet = XlsxErrorView::UnreadableSheet(first, second).message();
    assert(sheet.subrange(22, 22 + first.len() as int) =~= first);
    assert(sheet.skip(sheet.len() - second.len()) =~= second);
}

} // verus!
