//! Typed attributes of XML tags.

use vstd::prelude::*;
use vstd::string::StringSliceAdditionalSpecFns;
use vstd::utf8::{decode_utf8, encode_utf8, is_char_boundary};

use crate::errors::{plain_result, XlsxError, XlsxErrorView};
use crate::numbers::{
    decimal, decimal_text_reads_back, is_float, is_float_literal, parse_hex, parse_usize,
    parsed_up_to,
};
use crate::text::same_text;
use crate::xml::{attr_string, attribute_result, XmlTag, XmlTagView};

verus! {

/// The hexadecimal part of a color: a value of eight bytes begins with two for
/// the alpha channel, any other value is taken whole.
pub open spec fn color_digits(value: Seq<char>) -> Seq<char> {
    let bytes = encode_utf8(value);
    if bytes.len() == 8 {
        decode_utf8(bytes.subrange(2, 8))
    } else {
        value
    }
}

/// Whether the two bytes of the alpha channel, if there are any, are whole
/// characters.
pub open spec fn alpha_is_separable(value: Seq<char>) -> bool {
    encode_utf8(value).len() == 8 ==> is_char_boundary(encode_utf8(value), 2)
}

/// The color that a text denotes, if its hexadecimal part is a number of 32
/// bits.
pub open spec fn argb_color(value: Seq<char>) -> Option<u32> {
    match parsed_up_to(color_digits(value), 16, u32::MAX as nat) {
        Some(number) => Some(number as u32),
        None => None,
    }
}

/// Reads a color in `AARRGGBB` or `RRGGBB` notation, dropping the alpha channel.
pub fn parse_argb_color(value: &str) -> (color: Option<u32>)
    requires
        alpha_is_separable(value@),
    ensures
        color == argb_color(value@),
{
    if value.as_bytes().len() == 8 {
        let (alpha, digits) = value.split_at(2);
        proof {
            vstd::utf8::encode_utf8_decode_utf8(digits@);
            assert(digits.spec_bytes() == value.spec_bytes().subrange(2, 8));
        }
        parse_hex(digits)
    } else {
        parse_hex(value)
    }
}

impl XmlTagView {
    /// An attribute that has to be an unsigned number where it is given.
    pub open spec fn number(self, name: Seq<char>) -> Result<Option<usize>, XlsxErrorView> {
        match self.attribute(name) {
            Err(error) => Err(error),
            Ok(None) => Ok(None),
            Ok(Some(value)) => match parsed_up_to(value, 10, usize::MAX as nat) {
                Some(number) => Ok(Some(number as usize)),
                None => Err(XlsxErrorView::InvalidNumber(value)),
            },
        }
    }

    /// An attribute that has to be a floating-point literal where it is given.
    pub open spec fn float(self, name: Seq<char>) -> Result<Option<Seq<char>>, XlsxErrorView> {
        match self.attribute(name) {
            Err(error) => Err(error),
            Ok(None) => Ok(None),
            Ok(Some(value)) => if is_float_literal(value) {
                Ok(Some(value))
            } else {
                Err(XlsxErrorView::InvalidNumber(value))
            },
        }
    }

    /// A flag: set where the attribute is one of the words for true.
    pub open spec fn flag(self, name: Seq<char>) -> Result<bool, XlsxErrorView> {
        match self.attribute(name) {
            Err(error) => Err(error),
            Ok(None) => Ok(false),
            Ok(Some(value)) => Ok(value == "1"@ || value == "true"@ || value == "TRUE"@),
        }
    }

    /// The color that the attribute `rgb` gives.
    pub open spec fn color(self) -> Result<Option<u32>, XlsxErrorView> {
        match self.attribute("rgb"@) {
            Err(error) => Err(error),
            Ok(None) => Ok(None),
            Ok(Some(value)) => if alpha_is_separable(value) {
                Ok(argb_color(value))
            } else {
                Err(XlsxErrorView::InvalidColor(value))
            },
        }
    }
}

/// Reads an unsigned number from an attribute.
pub fn attr_usize(tag: &XmlTag, name: &str) -> (number: Result<Option<usize>, XlsxError>)
    ensures
        plain_result(number) == tag@.number(name@),
{
    match attr_string(tag, name) {
        Err(error) => Err(error),
        Ok(None) => Ok(None),
        Ok(Some(value)) => match parse_usize(value.as_str()) {
            Some(number) => Ok(Some(number)),
            None => Err(XlsxError::InvalidNumber(value)),
        },
    }
}

/// Reads a floating-point literal from an attribute and keeps it as text.
pub fn attr_float(tag: &XmlTag, name: &str) -> (number: Result<Option<String>, XlsxError>)
    ensures
        attribute_result(number) == tag@.float(name@),
{
    match attr_string(tag, name) {
        Err(error) => Err(error),
        Ok(None) => Ok(None),
        Ok(Some(value)) => if is_float(value.as_str()) {
            Ok(Some(value))
        } else {
            Err(XlsxError::InvalidNumber(value))
        },
    }
}

/// Reads a flag from an attribute; it is not set where the attribute is absent.
pub fn attr_bool(tag: &XmlTag, name: &str) -> (flag: Result<bool, XlsxError>)
    ensures
        plain_result(flag) == tag@.flag(name@),
{
    match attr_string(tag, name) {
        Err(error) => Err(error),
        Ok(None) => Ok(false),
        Ok(Some(value)) => Ok(
            same_text(value.as_str(), "1") || same_text(value.as_str(), "true") || same_text(
                value.as_str(),
                "TRUE",
            ),
        ),
    }
}

/// Reads the color that the attribute `rgb` gives.
pub fn attr_rgb(tag: &XmlTag) -> (color: Result<Option<u32>, XlsxError>)
    ensures
        plain_result(color) == tag@.color(),
{
    match attr_string(tag, "rgb") {
        Err(error) => Err(error),
        Ok(None) => Ok(None),
        Ok(Some(value)) => if value.as_str().as_bytes().len() == 8 && !value.as_str().is_char_boundary(2) {
            Err(XlsxError::InvalidColor(value))
        } else {
            Ok(parse_argb_color(value.as_str()))
        },
    }
}

/// A number that was written in decimal digits is read as that number, where it fits; of an
/// attribute that is missing there is no number.
pub proof fn written_numbers_are_read(tag: XmlTagView, name: Seq<char>, number: nat)
    ensures
        tag.attribute(name) == Ok::<Option<Seq<char>>, XlsxErrorView>(Some(decimal(number)))
            && number <= usize::MAX ==> tag.number(name) == Ok::<Option<usize>, XlsxErrorView>(
            Some(number as usize),
        ),
        tag.attribute(name) == Ok::<Option<Seq<char>>, XlsxErrorView>(Some(decimal(number)))
            && number > usize::MAX ==> tag.number(name) is Err,
        tag.attribute(name) == Ok::<Option<Seq<char>>, XlsxErrorView>(None) ==> tag.number(name)
            == Ok::<Option<usize>, XlsxErrorView>(None) && tag.float(name) == Ok::<
            Option<Seq<char>>,
            XlsxErrorView,
        >(None) && tag.flag(name) == Ok::<bool, XlsxErrorView>(false),
        tag.attribute(name) is Err ==> tag.number(name) is Err && tag.float(name) is Err
            && tag.flag(name) is Err,
{
    decimal_text_reads_back(number);
}

/// A flag is set by a one and by the word for true, in small letters or in capitals, and by
/// nothing else.
pub proof fn flags_are_set_by_one_and_true(tag: XmlTagView, name: Seq<char>)
    requires
        tag.attribute(name) is Ok,
    ensures
        tag.flag(name) == Ok::<bool, XlsxErrorView>(true) <==> tag.attribute(name)->Ok_0 is Some && (
        tag.attribute(name)->Ok_0->0 == seq!['1'] || tag.attribute(name)->Ok_0->0 == seq![
            't',
            'r',
            'u',
            'e',
        ] || tag.attribute(name)->Ok_0->0 == seq!['T', 'R', 'U', 'E']),
        tag.flag(name) is Ok,
{
    reveal_strlit("1");
    reveal_strlit("true");
    reveal_strlit("TRUE");
    assert("1"@ =~= seq!['1']);
    assert("true"@ =~= seq!['t', 'r', 'u', 'e']);
    assert("TRUE"@ =~= seq!['T', 'R', 'U', 'E']);
}

} // verus!
