//! XML documents as lists of events.

use quick_xml::events::attributes::Attribute;
use quick_xml::events::{BytesStart, Event};
use vstd::prelude::*;

use crate::errors::{XlsxError, XlsxErrorView};
use crate::text::same_text;

verus! {

/// The XML reader of `quick_xml`, which hands out one event after the other.
#[verifier::external_type_specification]
#[verifier::external_body]
#[verifier::reject_recursive_types(R)]
pub struct ExXmlReader<R>(quick_xml::Reader<R>);

/// A start tag.
#[derive(Debug)]
pub struct XmlTag {
    /// The tag's name without its namespace prefix.
    pub local_name: String,
    /// The tag's name as it is written.
    pub name: String,
    /// What stands between the name and the end of the tag.
    pub attributes: String,
}

/// One event of an XML document.
#[derive(Debug)]
pub enum XmlEvent {
    /// A start tag whose end tag follows later.
    Start(XmlTag),
    /// The tag of an element without content.
    Empty(XmlTag),
    /// The end tag of an element, by its name without prefix.
    End(String),
    /// Text, comments, declarations and the like.
    Other,
}

/// The mathematical content of an [`XmlTag`].
#[verifier::ext_equal]
pub struct XmlTagView {
    pub local_name: Seq<char>,
    pub name: Seq<char>,
    pub attributes: Seq<char>,
}

/// The mathematical content of an [`XmlEvent`].
#[verifier::ext_equal]
pub enum XmlEventView {
    Start(XmlTagView),
    Empty(XmlTagView),
    End(Seq<char>),
    Other,
}

impl View for XmlTag {
    type V = XmlTagView;

    open spec fn view(&self) -> XmlTagView {
        XmlTagView {
            local_name: self.local_name@,
            name: self.name@,
            attributes: self.attributes@,
        }
    }
}

impl View for XmlEvent {
    type V = XmlEventView;

    open spec fn view(&self) -> XmlEventView {
        match self {
            XmlEvent::Start(tag) => XmlEventView::Start(tag@),
            XmlEvent::Empty(tag) => XmlEventView::Empty(tag@),
            XmlEvent::End(name) => XmlEventView::End(name@),
            XmlEvent::Other => XmlEventView::Other,
        }
    }
}

/// An event, or the message of the error that came in its place.
pub type XmlItemView = Result<XmlEventView, Seq<char>>;

/// The items that a reader over a text hands out before the end of the text,
/// with white space trimmed at the ends of text events.
pub uninterp spec fn xml_items(text: Seq<char>) -> Seq<XmlItemView>;

/// The items that a reader has not handed out yet.
pub uninterp spec fn unread_items(reader: &quick_xml::Reader<&[u8]>) -> Seq<XmlItemView>;

/// `quick_xml::Reader::from_str` with `trim_text`: a reader over the text, at
/// its start.
#[verifier::external_body]
fn open_xml<'a>(text: &'a str) -> (reader: quick_xml::Reader<&'a [u8]>)
    ensures
        unread_items(&reader) == xml_items(text@),
{
    let mut reader = quick_xml::Reader::from_str(text);
    reader.config_mut().trim_text(true);
    reader
}

/// The items that a reader over bytes hands out before their end, with end tags
/// of any name admitted.
pub uninterp spec fn markup_items(bytes: Seq<u8>) -> Seq<XmlItemView>;

/// `quick_xml::Reader::from_reader` without `check_end_names`: a reader over the
/// bytes, at their start.
#[verifier::external_body]
fn open_markup<'a>(bytes: &'a [u8]) -> (reader: quick_xml::Reader<&'a [u8]>)
    ensures
        unread_items(&reader) == markup_items(bytes@),
{
    let mut reader = quick_xml::Reader::from_reader(bytes);
    reader.config_mut().check_end_names = false;
    reader
}

/// What `read_event` handed out, as an item.
pub open spec fn item_view(item: Result<XmlEvent, String>) -> XmlItemView {
    match item {
        Ok(event) => Ok(event@),
        Err(message) => Err(message@),
    }
}

/// `quick_xml::Reader::read_event`: takes the next item off the reader. Behind
/// the last item it reports the end of the text, `None`, and goes on doing so.
#[verifier::external_body]
fn read_event(reader: &mut quick_xml::Reader<&[u8]>) -> (item: Option<Result<XmlEvent, String>>)
    ensures
        unread_items(old(reader)).len() == 0 ==> item is None && unread_items(final(reader))
            == unread_items(old(reader)),
        unread_items(old(reader)).len() > 0 ==> item is Some && item_view(item->0) == unread_items(
            old(reader),
        )[0] && unread_items(final(reader)) == unread_items(old(reader)).skip(1),
{
    let tag = |tag: BytesStart| XmlTag {
        local_name: tag.local_name().as_ref().to_owned(),
        name: tag.name().as_ref().to_owned(),
        attributes: tag.attributes_raw().to_owned(),
    };
    Some(match reader.read_event() {
        Ok(Event::Start(start)) => Ok(XmlEvent::Start(tag(start))),
        Ok(Event::Empty(empty)) => Ok(XmlEvent::Empty(tag(empty))),
        Ok(Event::End(end)) => Ok(XmlEvent::End(end.local_name().as_ref().to_owned())),
        Ok(Event::Eof) => return None,
        Ok(_) => Ok(XmlEvent::Other),
        Err(error) => Err(error.to_string()),
    })
}

/// One attribute of a tag.
#[derive(Debug)]
pub struct XmlAttribute {
    /// The attribute's name without its namespace prefix.
    pub local_name: String,
    /// The value with its entities resolved, or why that failed.
    pub value: Result<String, String>,
}

/// The mathematical content of an [`XmlAttribute`].
#[verifier::ext_equal]
pub struct XmlAttributeView {
    pub local_name: Seq<char>,
    pub value: Result<Seq<char>, Seq<char>>,
}

impl View for XmlAttribute {
    type V = XmlAttributeView;

    open spec fn view(&self) -> XmlAttributeView {
        XmlAttributeView {
            local_name: self.local_name@,
            value: match self.value {
                Ok(value) => Ok(value@),
                Err(message) => Err(message@),
            },
        }
    }
}

/// The content of a list of attributes, each of which may be malformed.
pub open spec fn attributes_view(
    attributes: Seq<Result<XmlAttribute, String>>,
) -> Seq<Result<XmlAttributeView, Seq<char>>> {
    attributes.map_values(
        |attribute: Result<XmlAttribute, String>|
            match attribute {
                Ok(attribute) => Ok(attribute@),
                Err(message) => Err(message@),
            },
    )
}

/// The attributes of a tag, given its name and what follows the name.
pub uninterp spec fn tag_attributes(name: Seq<char>, attributes: Seq<char>) -> Seq<
    Result<XmlAttributeView, Seq<char>>,
>;

/// `BytesStart::attributes` of `quick_xml`: the attributes behind the name, in
/// order, each with `Attribute::normalized_value` applied. One of a name that the
/// tag has already is reported as malformed.
///
/// The iterator goes through the tag once from behind the name, so its items
/// depend on these two texts alone.
#[verifier::external_body]
fn read_attributes(name: &str, attributes: &str) -> (items: Vec<Result<XmlAttribute, String>>)
    ensures
        attributes_view(items@) == tag_attributes(name@, attributes@),
{
    let convert = |attribute: Attribute| XmlAttribute {
        local_name: attribute.key.local_name().as_ref().to_owned(),
        value: attribute.normalized_value(quick_xml::XmlVersion::Implicit1_0)
            .map(|value| value.into_owned()).map_err(|error| error.to_string()),
    };
    BytesStart::from_content(format!("{name}{attributes}"), name.len()).attributes()
        .map(|attribute| attribute.map(convert).map_err(|error| error.to_string()))
        .collect()
}

/// A text with its entities resolved, or why that failed.
pub uninterp spec fn xml_unescaped(text: Seq<char>) -> Result<Seq<char>, Seq<char>>;

/// `quick_xml::escape::unescape`: a text with its entities resolved.
#[verifier::external_body]
pub(crate) fn unescape(text: &str) -> (unescaped: Result<String, String>)
    ensures
        match unescaped {
            Ok(unescaped) => xml_unescaped(text@) == Ok::<_, Seq<char>>(unescaped@),
            Err(message) => xml_unescaped(text@) == Err::<Seq<char>, _>(message@),
        },
{
    quick_xml::escape::unescape(text).map(|text| text.into_owned()).map_err(
        |error| error.to_string(),
    )
}

/// The value of the first attribute of the given local name. Malformed
/// attributes before it, or a value that cannot be decoded, are errors.
pub open spec fn find_attribute(
    attributes: Seq<Result<XmlAttributeView, Seq<char>>>,
    name: Seq<char>,
) -> Result<Option<Seq<char>>, XlsxErrorView>
    decreases attributes.len(),
{
    if attributes.len() == 0 {
        Ok(None)
    } else {
        match attributes[0] {
            Err(message) => Err(XlsxErrorView::Xml(message)),
            Ok(attribute) => if attribute.local_name == name {
                match attribute.value {
                    Ok(value) => Ok(Some(value)),
                    Err(message) => Err(XlsxErrorView::Xml(message)),
                }
            } else {
                find_attribute(attributes.skip(1), name)
            },
        }
    }
}

impl XmlTagView {
    /// The value of the tag's attribute of the given local name.
    pub open spec fn attribute(self, name: Seq<char>) -> Result<
        Option<Seq<char>>,
        XlsxErrorView,
    > {
        find_attribute(tag_attributes(self.name, self.attributes), name)
    }
}

/// The content of an attribute look-up.
pub open spec fn attribute_result(result: Result<Option<String>, XlsxError>) -> Result<
    Option<Seq<char>>,
    XlsxErrorView,
> {
    match result {
        Ok(Some(value)) => Ok(Some(value@)),
        Ok(None) => Ok(None),
        Err(error) => Err(error@),
    }
}

/// Looks an attribute up in a list of attributes.
pub fn attribute_value(attributes: &Vec<Result<XmlAttribute, String>>, name: &str) -> (value:
    Result<Option<String>, XlsxError>)
    ensures
        attribute_result(value) == find_attribute(attributes_view(attributes@), name@),
{
    let ghost views = attributes_view(attributes@);
    assert(views.skip(0) == views);
    let mut index: usize = 0;
    while index < attributes.len()
        invariant
            index <= attributes@.len(),
            views == attributes_view(attributes@),
            find_attribute(views, name@) == find_attribute(views.skip(index as int), name@),
        decreases attributes@.len() - index,
    {
        assert(views.skip(index as int)[0] == views[index as int]);
        assert(views.skip(index as int).skip(1) == views.skip(index + 1));
        match &attributes[index] {
            Err(message) => {
                return Err(XlsxError::Xml(message.clone()));
            },
            Ok(attribute) => {
                if same_text(attribute.local_name.as_str(), name) {
                    return match &attribute.value {
                        Ok(value) => Ok(Some(value.clone())),
                        Err(message) => Err(XlsxError::Xml(message.clone())),
                    };
                }
            },
        }
        index += 1;
    }
    Ok(None)
}

/// The value of a tag's attribute of the given local name, where it has one.
pub fn attr_string(tag: &XmlTag, name: &str) -> (value: Result<Option<String>, XlsxError>)
    ensures
        attribute_result(value) == tag@.attribute(name@),
{
    let attributes = read_attributes(tag.name.as_str(), tag.attributes.as_str());
    attribute_value(&attributes, name)
}

/// An XML document: its events up to the end, or up to the first error.
#[derive(Debug)]
pub struct XmlDocument {
    pub events: Vec<XmlEvent>,
    /// The error that ended the reading, if one did.
    pub error: Option<String>,
}

/// The mathematical content of an [`XmlDocument`].
#[verifier::ext_equal]
pub struct XmlDocumentView {
    pub events: Seq<XmlEventView>,
    pub error: Option<Seq<char>>,
}

impl View for XmlDocument {
    type V = XmlDocumentView;

    open spec fn view(&self) -> XmlDocumentView {
        XmlDocumentView {
            events: self.events@.map_values(|event: XmlEvent| event@),
            error: match self.error {
                Some(message) => Some(message@),
                None => None,
            },
        }
    }
}

/// The document that a list of items makes up.
pub open spec fn document_of(items: Seq<XmlItemView>) -> XmlDocumentView
    decreases items.len(),
{
    if items.len() == 0 {
        XmlDocumentView { events: Seq::empty(), error: None }
    } else {
        match items[0] {
            Ok(event) => {
                let rest = document_of(items.skip(1));
                XmlDocumentView { events: seq![event] + rest.events, error: rest.error }
            },
            Err(message) => XmlDocumentView { events: Seq::empty(), error: Some(message) },
        }
    }
}

/// Takes the events off a reader.
fn read_events(source: quick_xml::Reader<&[u8]>) -> (document: XmlDocument)
    ensures
        document@ == document_of(unread_items(&source)),
{
    let ghost items = unread_items(&source);
    let mut reader = source;
    let mut events: Vec<XmlEvent> = Vec::new();
    let ghost seen = Seq::<XmlEventView>::empty();
    assert(events@.map_values(|event: XmlEvent| event@) == seen);
    assert(seen + document_of(items).events == document_of(items).events);
    loop
        invariant
            items == unread_items(&source),
            events@.map_values(|event: XmlEvent| event@) == seen,
            document_of(items) == (XmlDocumentView {
                events: seen + document_of(unread_items(&reader)).events,
                error: document_of(unread_items(&reader)).error,
            }),
        decreases unread_items(&reader).len(),
    {
        let ghost unread = unread_items(&reader);
        match read_event(&mut reader) {
            None => {
                let document = XmlDocument { events, error: None };
                assert(document@.events == document_of(items).events);
                return document;
            },
            Some(Err(message)) => {
                let document = XmlDocument { events, error: Some(message) };
                assert(document@.events == document_of(items).events);
                return document;
            },
            Some(Ok(event)) => {
                proof {
                    let rest = document_of(unread.skip(1));
                    assert(seen + (seq![event@] + rest.events) == seen.push(event@) + rest.events);
                    seen = seen.push(event@);
                }
                events.push(event);
                assert(events@.map_values(|event: XmlEvent| event@) == seen);
            },
        }
    }
}

/// Reads the events of an XML text.
pub fn read_document(text: &str) -> (document: XmlDocument)
    ensures
        document@ == document_of(xml_items(text@)),
{
    read_events(open_xml(text))
}

/// Reads the events of bytes that may hold XML, whatever the names of its end
/// tags are.
pub fn read_markup(bytes: &Vec<u8>) -> (document: XmlDocument)
    ensures
        document@ == document_of(markup_items(bytes@)),
{
    read_events(open_markup(bytes.as_slice()))
}

/// An attribute is found by its name, however many others stand in front of it; where no
/// attribute bears the name, none is found.
pub proof fn attributes_are_found_by_name(
    attributes: Seq<Result<XmlAttributeView, Seq<char>>>,
    name: Seq<char>,
    index: int,
)
    requires
        0 <= index <= attributes.len(),
        forall|i: int|
            0 <= i < index ==> (#[trigger] attributes[i]) is Ok && attributes[i]->Ok_0.local_name
                != name,
    ensures
        index == attributes.len() ==> find_attribute(attributes, name) == Ok::<
            Option<Seq<char>>,
            XlsxErrorView,
        >(None),
        index < attributes.len() && attributes[index] is Ok && attributes[index]->Ok_0.local_name
            == name && attributes[index]->Ok_0.value is Ok ==> find_attribute(attributes, name)
            == Ok::<Option<Seq<char>>, XlsxErrorView>(Some(attributes[index]->Ok_0.value->Ok_0)),
        index < attributes.len() && attributes[index] is Err ==> find_attribute(attributes, name)
            == Err::<Option<Seq<char>>, XlsxErrorView>(
            XlsxErrorView::Xml(attributes[index]->Err_0),
        ),
    decreases index,
{
    if index > 0 {
        let rest = attributes.skip(1);
        assert(attributes[0] is Ok);
        assert forall|i: int| 0 <= i < index - 1 implies (#[trigger] rest[i]) is Ok
            && rest[i]->Ok_0.local_name != name by {
            assert(rest[i] == attributes[i + 1]);
        }
        attributes_are_found_by_name(rest, name, index - 1);
        if index < attributes.len() {
            assert(rest[index - 1] == attributes[index]);
        }
    }
}

/// A document has all its events in their order, up to the first error.
pub proof fn documents_are_read_up_to_the_first_error(items: Seq<XmlItemView>, count: int)
    requires
        0 <= count <= items.len(),
        forall|i: int| 0 <= i < count ==> (#[trigger] items[i]) is Ok,
    ensures
        ({
            let document = document_of(items);
            &&& document.events.len() >= count
            &&& forall|i: int|
                0 <= i < count ==> #[trigger] document.events[i] == items[i]->Ok_0
            &&& count == items.len() ==> document.events.len() == count && document.error is None
            &&& count < items.len() && items[count] is Err ==> document.events.len() == count
                && document.error == Some(items[count]->Err_0)
        }),
    decreases count,
{
    if count > 0 {
        let rest = items.skip(1);
        assert(items[0] is Ok);
        assert forall|i: int| 0 <= i < count - 1 implies (#[trigger] rest[i]) is Ok by {
            assert(rest[i] == items[i + 1]);
        }
        documents_are_read_up_to_the_first_error(rest, count - 1);
        let document = document_of(items);
        assert forall|i: int| 0 <= i < count implies #[trigger] document.events[i]
            == items[i]->Ok_0 by {
            if i > 0 {
                assert(document.events[i] == document_of(rest).events[i - 1]);
                assert(rest[i - 1] == items[i]);
            }
        }
        if count < items.len() {
            assert(rest[count - 1] == items[count]);
        }
    }
}

} // verus!
