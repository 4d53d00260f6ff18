//! The style sheet of an XLSX package: number formats, fonts, fills, borders and
//! the cell styles that combine them.

use std::collections::HashMap;

use vstd::prelude::*;

use crate::attributes::{attr_bool, attr_rgb, attr_usize};
use crate::cell::{no_borders, plain_style, CellBorders, CellStyle};
use crate::errors::{plain_result, step_result, XlsxError, XlsxErrorView};
use crate::formats::{display_format_of, CellDisplayFormat};
use crate::text::same_text;
use crate::xml::{
    attr_string, read_document, document_of, xml_items, XmlDocument, XmlDocumentView, XmlEvent,
    XmlEventView, XmlTag, XmlTagView,
};

verus! {

broadcast use vstd::std_specs::hash::group_hash_axioms;

/// The color of a border side that declares a style but no color: black.
pub const DEFAULT_BORDER_COLOR: u32 = 0;

/// The style of a cell of an XLSX sheet.
#[derive(Debug, Clone, Copy, PartialEq, Eq, Structural)]
pub struct XlsxCellStyle {
    pub display_format: Option<CellDisplayFormat>,
    pub visual_style: CellStyle,
}

/// The style of a cell for which the package gives none.
pub open spec fn default_cell_style() -> XlsxCellStyle {
    XlsxCellStyle { display_format: None, visual_style: plain_style() }
}

impl Default for XlsxCellStyle {
    fn default() -> (style: Self)
        ensures
            style == default_cell_style(),
    {
        XlsxCellStyle { display_format: None, visual_style: CellStyle::default() }
    }
}

/// One of the four sides of a cell.
#[derive(Debug, Clone, Copy, PartialEq, Eq, Structural)]
pub enum BorderSide {
    Top,
    Right,
    Bottom,
    Left,
}

/// The side that an element of a border describes, by the element's name.
pub open spec fn side_named(local_name: Seq<char>) -> Option<BorderSide> {
    if local_name == "top"@ {
        Some(BorderSide::Top)
    } else if local_name == "right"@ {
        Some(BorderSide::Right)
    } else if local_name == "bottom"@ {
        Some(BorderSide::Bottom)
    } else if local_name == "left"@ {
        Some(BorderSide::Left)
    } else {
        None
    }
}

/// The side that an element of a border describes, by the element's name.
pub fn border_side(local_name: &str) -> (side: Option<BorderSide>)
    ensures
        side == side_named(local_name@),
{
    if same_text(local_name, "top") {
        Some(BorderSide::Top)
    } else if same_text(local_name, "right") {
        Some(BorderSide::Right)
    } else if same_text(local_name, "bottom") {
        Some(BorderSide::Bottom)
    } else if same_text(local_name, "left") {
        Some(BorderSide::Left)
    } else {
        None
    }
}

/// The elements of a style sheet that matter.
#[derive(Debug, Clone, Copy, PartialEq, Eq, Structural)]
pub enum StyleElement {
    NumberFormat,
    CellStyles,
    Fonts,
    Font,
    Bold,
    Color,
    Fills,
    Fill,
    PatternFill,
    FillColor,
    Borders,
    Border,
    CellStyle,
    Alignment,
    Side(BorderSide),
    Other,
}

/// The element of the given name.
pub open spec fn element_named(name: Seq<char>) -> StyleElement {
    if name == "numFmt"@ {
        StyleElement::NumberFormat
    } else if name == "cellXfs"@ {
        StyleElement::CellStyles
    } else if name == "fonts"@ {
        StyleElement::Fonts
    } else if name == "font"@ {
        StyleElement::Font
    } else if name == "b"@ {
        StyleElement::Bold
    } else if name == "color"@ {
        StyleElement::Color
    } else if name == "fills"@ {
        StyleElement::Fills
    } else if name == "fill"@ {
        StyleElement::Fill
    } else if name == "patternFill"@ {
        StyleElement::PatternFill
    } else if name == "fgColor"@ {
        StyleElement::FillColor
    } else if name == "borders"@ {
        StyleElement::Borders
    } else if name == "border"@ {
        StyleElement::Border
    } else if name == "xf"@ {
        StyleElement::CellStyle
    } else if name == "alignment"@ {
        StyleElement::Alignment
    } else {
        match side_named(name) {
            Some(side) => StyleElement::Side(side),
            None => StyleElement::Other,
        }
    }
}

/// The element of the given name.
fn style_element(name: &str) -> (element: StyleElement)
    ensures
        element == element_named(name@),
{
    if same_text(name, "numFmt") {
        StyleElement::NumberFormat
    } else if same_text(name, "cellXfs") {
        StyleElement::CellStyles
    } else if same_text(name, "fonts") {
        StyleElement::Fonts
    } else if same_text(name, "font") {
        StyleElement::Font
    } else if same_text(name, "b") {
        StyleElement::Bold
    } else if same_text(name, "color") {
        StyleElement::Color
    } else if same_text(name, "fills") {
        StyleElement::Fills
    } else if same_text(name, "fill") {
        StyleElement::Fill
    } else if same_text(name, "patternFill") {
        StyleElement::PatternFill
    } else if same_text(name, "fgColor") {
        StyleElement::FillColor
    } else if same_text(name, "borders") {
        StyleElement::Borders
    } else if same_text(name, "border") {
        StyleElement::Border
    } else if same_text(name, "xf") {
        StyleElement::CellStyle
    } else if same_text(name, "alignment") {
        StyleElement::Alignment
    } else {
        match border_side(name) {
            Some(side) => StyleElement::Side(side),
            None => StyleElement::Other,
        }
    }
}

/// Borders with one side replaced.
pub open spec fn with_side(borders: CellBorders, side: BorderSide, color: Option<u32>) -> CellBorders {
    match side {
        BorderSide::Top => CellBorders { top: color, ..borders },
        BorderSide::Right => CellBorders { right: color, ..borders },
        BorderSide::Bottom => CellBorders { bottom: color, ..borders },
        BorderSide::Left => CellBorders { left: color, ..borders },
    }
}

/// Sets one side of a cell's borders.
pub fn set_border_side(borders: &mut CellBorders, side: BorderSide, color: Option<u32>)
    ensures
        *final(borders) == with_side(*old(borders), side, color),
{
    match side {
        BorderSide::Top => {
            borders.top = color;
        },
        BorderSide::Right => {
            borders.right = color;
        },
        BorderSide::Bottom => {
            borders.bottom = color;
        },
        BorderSide::Left => {
            borders.left = color;
        },
    }
}

/// The content of a table of number formats.
pub open spec fn formats_view(formats: Map<usize, String>) -> Map<usize, Seq<char>> {
    formats.map_values(|code: String| code@)
}

/// The number formats that a style sheet need not spell out.
pub open spec fn builtin_formats() -> Map<usize, Seq<char>> {
    Map::<usize, Seq<char>>::empty().insert(5, "$#,##0_);($#,##0)"@).insert(
        6,
        "$#,##0_);[Red]($#,##0)"@,
    ).insert(7, "$#,##0.00_);($#,##0.00)"@).insert(8, "$#,##0.00_);[Red]($#,##0.00)"@).insert(
        9,
        "0%"@,
    ).insert(10, "0.00%"@).insert(44, "_($* #,##0.00_);_($* (#,##0.00);_($* \"-\"??_);_(@_)"@)
}

/// Adds a number format to a table.
fn insert_format(formats: &mut HashMap<usize, String>, id: usize, code: String)
    ensures
        formats_view(final(formats)@) == formats_view(old(formats)@).insert(id, code@),
{
    formats.insert(id, code);
    assert(formats_view(formats@) == formats_view(old(formats)@).insert(id, code@));
}

/// The number formats that a style sheet need not spell out.
pub fn builtin_number_formats() -> (formats: HashMap<usize, String>)
    ensures
        formats_view(formats@) == builtin_formats(),
{
    let mut formats: HashMap<usize, String> = HashMap::new();
    assert(formats_view(formats@) == Map::<usize, Seq<char>>::empty());
    insert_format(&mut formats, 5, "$#,##0_);($#,##0)".to_owned());
    insert_format(&mut formats, 6, "$#,##0_);[Red]($#,##0)".to_owned());
    insert_format(&mut formats, 7, "$#,##0.00_);($#,##0.00)".to_owned());
    insert_format(&mut formats, 8, "$#,##0.00_);[Red]($#,##0.00)".to_owned());
    insert_format(&mut formats, 9, "0%".to_owned());
    insert_format(&mut formats, 10, "0.00%".to_owned());
    insert_format(
        &mut formats,
        44,
        "_($* #,##0.00_);_($* (#,##0.00);_($* \"-\"??_);_(@_)".to_owned(),
    );
    formats
}

/// Where in a style sheet the reading stands, and what it has gathered of the
/// element that it is in.
#[derive(Clone, Copy)]
pub struct StyleCursor {
    pub in_fonts: bool,
    pub in_font: bool,
    pub font: CellStyle,
    pub in_fills: bool,
    pub in_fill: bool,
    pub in_solid_pattern_fill: bool,
    pub fill_color: Option<u32>,
    pub in_borders: bool,
    pub in_border: bool,
    pub current_border: CellBorders,
    pub current_side: Option<BorderSide>,
    pub in_cell_xfs: bool,
    pub pending_xf: Option<XlsxCellStyle>,
}

impl StyleCursor {
    /// Where the reading stands behind a tag that only leads into an element, or
    /// makes the open font bold.
    pub open spec fn opened(self, element: StyleElement, is_empty: bool) -> StyleCursor {
        match element {
            StyleElement::CellStyles if !is_empty => StyleCursor { in_cell_xfs: true, ..self },
            StyleElement::Fonts if !is_empty => StyleCursor { in_fonts: true, ..self },
            StyleElement::Font if !is_empty && self.in_fonts => StyleCursor {
                in_font: true,
                font: plain_style(),
                ..self
            },
            StyleElement::Bold if self.in_font => StyleCursor {
                font: CellStyle { bold: true, ..self.font },
                ..self
            },
            StyleElement::Fills if !is_empty => StyleCursor { in_fills: true, ..self },
            StyleElement::Fill if !is_empty && self.in_fills => StyleCursor {
                in_fill: true,
                in_solid_pattern_fill: false,
                fill_color: None,
                ..self
            },
            StyleElement::Borders if !is_empty => StyleCursor { in_borders: true, ..self },
            StyleElement::Border if !is_empty && self.in_borders => StyleCursor {
                in_border: true,
                current_border: no_borders(),
                ..self
            },
            _ => self,
        }
    }

    /// Moves the reading behind a tag that only leads into an element, or makes
    /// the open font bold.
    fn open(self, element: StyleElement, is_empty: bool) -> (cursor: StyleCursor)
        ensures
            cursor == self.opened(element, is_empty),
    {
        match element {
            StyleElement::CellStyles if !is_empty => StyleCursor { in_cell_xfs: true, ..self },
            StyleElement::Fonts if !is_empty => StyleCursor { in_fonts: true, ..self },
            StyleElement::Font if !is_empty && self.in_fonts => StyleCursor {
                in_font: true,
                font: CellStyle::default(),
                ..self
            },
            StyleElement::Bold if self.in_font => StyleCursor {
                font: CellStyle { bold: true, ..self.font },
                ..self
            },
            StyleElement::Fills if !is_empty => StyleCursor { in_fills: true, ..self },
            StyleElement::Fill if !is_empty && self.in_fills => StyleCursor {
                in_fill: true,
                in_solid_pattern_fill: false,
                fill_color: None,
                ..self
            },
            StyleElement::Borders if !is_empty => StyleCursor { in_borders: true, ..self },
            StyleElement::Border if !is_empty && self.in_borders => StyleCursor {
                in_border: true,
                current_border: CellBorders::default(),
                ..self
            },
            _ => self,
        }
    }
}

/// The tables of a style sheet, as far as it has been read.
pub struct StyleTables {
    pub number_formats: HashMap<usize, String>,
    pub fonts: Vec<CellStyle>,
    pub fills: Vec<Option<u32>>,
    pub borders: Vec<CellBorders>,
    pub styles: Vec<XlsxCellStyle>,
    pub cursor: StyleCursor,
}

/// The mathematical content of [`StyleTables`].
#[verifier::ext_equal]
pub struct StyleTablesView {
    pub number_formats: Map<usize, Seq<char>>,
    pub fonts: Seq<CellStyle>,
    pub fills: Seq<Option<u32>>,
    pub borders: Seq<CellBorders>,
    pub styles: Seq<XlsxCellStyle>,
    pub cursor: StyleCursor,
}

impl View for StyleTables {
    type V = StyleTablesView;

    open spec fn view(&self) -> StyleTablesView {
        StyleTablesView {
            number_formats: formats_view(self.number_formats@),
            fonts: self.fonts@,
            fills: self.fills@,
            borders: self.borders@,
            styles: self.styles@,
            cursor: self.cursor,
        }
    }
}

/// The entry of a table, where the table has it.
pub open spec fn entry_or<T>(table: Seq<T>, index: Option<usize>, other: T) -> T {
    match index {
        Some(index) => if index < table.len() {
            table[index as int]
        } else {
            other
        },
        None => other,
    }
}

impl StyleTablesView {
    /// The tables before anything is read.
    pub open spec fn initial() -> StyleTablesView {
        StyleTablesView {
            number_formats: builtin_formats(),
            fonts: Seq::empty(),
            fills: Seq::empty(),
            borders: Seq::empty(),
            styles: Seq::empty(),
            cursor: StyleCursor {
                in_fonts: false,
                in_font: false,
                font: plain_style(),
                in_fills: false,
                in_fill: false,
                in_solid_pattern_fill: false,
                fill_color: None,
                in_borders: false,
                in_border: false,
                current_border: no_borders(),
                current_side: None,
                in_cell_xfs: false,
                pending_xf: None,
            },
        }
    }

    /// The cell style that an `xf` element puts together from the tables.
    pub open spec fn style_of_xf(self, tag: XmlTagView) -> Result<XlsxCellStyle, XlsxErrorView> {
        match (
            tag.number("numFmtId"@),
            tag.number("fontId"@),
            tag.number("fillId"@),
            tag.number("borderId"@),
        ) {
            (Err(error), _, _, _) => Err(error),
            (_, Err(error), _, _) => Err(error),
            (_, _, Err(error), _) => Err(error),
            (_, _, _, Err(error)) => Err(error),
            (Ok(format_id), Ok(font_id), Ok(fill_id), Ok(border_id)) => Ok(
                XlsxCellStyle {
                    display_format: match format_id {
                        Some(id) => if self.number_formats.contains_key(id) {
                            display_format_of(self.number_formats[id])
                        } else {
                            None
                        },
                        None => None,
                    },
                    visual_style: CellStyle {
                        background_color: entry_or(self.fills, fill_id, None),
                        borders: entry_or(self.borders, border_id, no_borders()),
                        ..entry_or(self.fonts, font_id, plain_style())
                    },
                },
            ),
        }
    }

    /// The tables behind a number format element.
    pub open spec fn after_number_format(self, tag: XmlTagView) -> Result<Self, XlsxErrorView> {
        match (tag.number("numFmtId"@), tag.attribute("formatCode"@)) {
            (Err(error), _) => Err(error),
            (_, Err(error)) => Err(error),
            (Ok(Some(id)), Ok(Some(code))) => Ok(
                StyleTablesView {
                    number_formats: self.number_formats.insert(id, code),
                    ..self
                },
            ),
            _ => Ok(self),
        }
    }

    /// The tables behind the opening of a border side, which may be all of it: it
    /// has a border if its style is given and is not `none`. What is inside of the
    /// side may color that border.
    pub open spec fn after_border_side(
        self,
        tag: XmlTagView,
        side: BorderSide,
        is_empty: bool,
    ) -> Result<Self, XlsxErrorView> {
        match tag.attribute("style"@) {
            Err(error) => Err(error),
            Ok(style) => if style is Some && style->0 != "none"@ {
                Ok(
                    self.at(
                        StyleCursor {
                            current_border: with_side(
                                self.cursor.current_border,
                                side,
                                Some(DEFAULT_BORDER_COLOR),
                            ),
                            current_side: if is_empty {
                                None
                            } else {
                                Some(side)
                            },
                            ..self.cursor
                        },
                    ),
                )
            } else {
                Ok(self.at(StyleCursor { current_side: None, ..self.cursor }))
            },
        }
    }

    /// The tables behind a color element: it colors the font, or else the border
    /// side, that is open.
    pub open spec fn after_color(self, tag: XmlTagView) -> Result<Self, XlsxErrorView> {
        if self.cursor.in_font {
            match tag.color() {
                Err(error) => Err(error),
                Ok(color) => Ok(
                    self.at(
                        StyleCursor {
                            font: CellStyle { text_color: color, ..self.cursor.font },
                            ..self.cursor
                        },
                    ),
                ),
            }
        } else if self.cursor.in_border && self.cursor.current_side is Some {
            match tag.color() {
                Err(error) => Err(error),
                Ok(Some(color)) => Ok(
                    self.at(
                        StyleCursor {
                            current_border: with_side(
                                self.cursor.current_border,
                                self.cursor.current_side->0,
                                Some(color),
                            ),
                            ..self.cursor
                        },
                    ),
                ),
                Ok(None) => Ok(self),
            }
        } else {
            Ok(self)
        }
    }

    /// The tables behind an alignment element: it may switch text wrapping on in
    /// the cell style that is open.
    pub open spec fn after_alignment(self, tag: XmlTagView) -> Result<Self, XlsxErrorView> {
        match self.cursor.pending_xf {
            None => Ok(self),
            Some(style) => match tag.flag("wrapText"@) {
                Err(error) => Err(error),
                Ok(false) => Ok(self),
                Ok(true) => {
                    let visual_style = CellStyle { wrap_text: true, ..style.visual_style };
                    Ok(
                        self.at(
                            StyleCursor {
                                pending_xf: Some(XlsxCellStyle { visual_style, ..style }),
                                ..self.cursor
                            },
                        ),
                    )
                },
            },
        }
    }

    /// The same tables with the reading elsewhere.
    pub open spec fn at(self, cursor: StyleCursor) -> Self {
        StyleTablesView { cursor, ..self }
    }

    /// The tables behind a tag that opens an element, or is all of it.
    pub open spec fn after_tag(self, tag: XmlTagView, is_empty: bool) -> Result<
        Self,
        XlsxErrorView,
    > {
        let cursor = self.cursor;
        match element_named(tag.local_name) {
            StyleElement::NumberFormat => self.after_number_format(tag),
            StyleElement::Color => self.after_color(tag),
            StyleElement::PatternFill if !is_empty && cursor.in_fill => match tag.attribute(
                "patternType"@,
            ) {
                Err(error) => Err(error),
                Ok(kind) => Ok(
                    self.at(
                        StyleCursor { in_solid_pattern_fill: kind == Some("solid"@), ..cursor },
                    ),
                ),
            },
            StyleElement::FillColor if cursor.in_solid_pattern_fill && cursor.fill_color is None =>
            match tag.color() {
                Err(error) => Err(error),
                Ok(color) => Ok(self.at(StyleCursor { fill_color: color, ..cursor })),
            },
            StyleElement::Border if is_empty && cursor.in_borders => Ok(
                StyleTablesView { borders: self.borders.push(no_borders()), ..self },
            ),
            StyleElement::Side(side) if cursor.in_border => self.after_border_side(
                tag,
                side,
                is_empty,
            ),
            StyleElement::CellStyle if cursor.in_cell_xfs => match self.style_of_xf(tag) {
                Err(error) => Err(error),
                Ok(style) => if is_empty {
                    Ok(StyleTablesView { styles: self.styles.push(style), ..self })
                } else {
                    Ok(self.at(StyleCursor { pending_xf: Some(style), ..cursor }))
                },
            },
            StyleElement::Alignment => self.after_alignment(tag),
            element => Ok(self.at(cursor.opened(element, is_empty))),
        }
    }

    /// The tables behind a tag that closes an element.
    pub open spec fn after_end(self, name: Seq<char>) -> Self {
        let cursor = self.cursor;
        match element_named(name) {
            StyleElement::CellStyles => self.at(StyleCursor { in_cell_xfs: false, ..cursor }),
            StyleElement::Fonts => self.at(StyleCursor { in_fonts: false, ..cursor }),
            StyleElement::Font if cursor.in_font => StyleTablesView {
                fonts: self.fonts.push(cursor.font),
                cursor: StyleCursor { in_font: false, ..cursor },
                ..self
            },
            StyleElement::Fills => self.at(StyleCursor { in_fills: false, ..cursor }),
            StyleElement::Fill if cursor.in_fill => StyleTablesView {
                fills: self.fills.push(cursor.fill_color),
                cursor: StyleCursor { in_fill: false, in_solid_pattern_fill: false, ..cursor },
                ..self
            },
            StyleElement::PatternFill if cursor.in_fill => self.at(
                StyleCursor { in_solid_pattern_fill: false, ..cursor },
            ),
            StyleElement::Borders => self.at(StyleCursor { in_borders: false, ..cursor }),
            StyleElement::Border if cursor.in_border => StyleTablesView {
                borders: self.borders.push(cursor.current_border),
                cursor: StyleCursor { in_border: false, current_side: None, ..cursor },
                ..self
            },
            StyleElement::Side(_) if cursor.in_border => self.at(
                StyleCursor { current_side: None, ..cursor },
            ),
            StyleElement::CellStyle if cursor.pending_xf is Some => StyleTablesView {
                styles: self.styles.push(cursor.pending_xf->0),
                cursor: StyleCursor { pending_xf: None, ..cursor },
                ..self
            },
            _ => self,
        }
    }

    /// The tables behind one event.
    pub open spec fn after_event(self, event: XmlEventView) -> Result<Self, XlsxErrorView> {
        match event {
            XmlEventView::Start(tag) => self.after_tag(tag, false),
            XmlEventView::Empty(tag) => self.after_tag(tag, true),
            XmlEventView::End(name) => Ok(self.after_end(name)),
            XmlEventView::Other => Ok(self),
        }
    }

    /// The tables behind a list of events, or the first error on the way.
    pub open spec fn after_events(self, events: Seq<XmlEventView>) -> Result<Self, XlsxErrorView>
        decreases events.len(),
    {
        if events.len() == 0 {
            Ok(self)
        } else {
            match self.after_event(events[0]) {
                Err(error) => Err(error),
                Ok(next) => next.after_events(events.skip(1)),
            }
        }
    }
}

/// The cell styles of a style sheet.
pub open spec fn document_styles(document: XmlDocumentView) -> Result<
    Seq<XlsxCellStyle>,
    XlsxErrorView,
> {
    match StyleTablesView::initial().after_events(document.events) {
        Err(error) => Err(error),
        Ok(tables) => match document.error {
            Some(message) => Err(XlsxErrorView::Xml(message)),
            None => Ok(tables.styles),
        },
    }
}

impl StyleTables {
    /// The tables before anything is read.
    pub fn new() -> (tables: StyleTables)
        ensures
            tables@ == StyleTablesView::initial(),
    {
        StyleTables {
            number_formats: builtin_number_formats(),
            fonts: Vec::new(),
            fills: Vec::new(),
            borders: Vec::new(),
            styles: Vec::new(),
            cursor: StyleCursor {
                in_fonts: false,
                in_font: false,
                font: CellStyle::default(),
                in_fills: false,
                in_fill: false,
                in_solid_pattern_fill: false,
                fill_color: None,
                in_borders: false,
                in_border: false,
                current_border: CellBorders::default(),
                current_side: None,
                in_cell_xfs: false,
                pending_xf: None,
            },
        }
    }

    /// Puts a cell style together from the tables as an `xf` element asks.
    pub fn xlsx_style_from_xf(&self, tag: &XmlTag) -> (style: Result<XlsxCellStyle, XlsxError>)
        ensures
            plain_result(style) == self@.style_of_xf(tag@),
    {
        let format_id = match attr_usize(tag, "numFmtId") {
            Err(error) => {
                return Err(error);
            },
            Ok(id) => id,
        };
        let display_format = match format_id {
            None => None,
            Some(id) => match self.number_formats.get(&id) {
                None => None,
                Some(code) => CellDisplayFormat::from_format_code(code.as_str()),
            },
        };
        let font = match attr_usize(tag, "fontId") {
            Err(error) => {
                return Err(error);
            },
            Ok(Some(id)) if id < self.fonts.len() => self.fonts[id],
            Ok(_) => CellStyle::default(),
        };
        let background_color = match attr_usize(tag, "fillId") {
            Err(error) => {
                return Err(error);
            },
            Ok(Some(id)) if id < self.fills.len() => self.fills[id],
            Ok(_) => None,
        };
        let borders = match attr_usize(tag, "borderId") {
            Err(error) => {
                return Err(error);
            },
            Ok(Some(id)) if id < self.borders.len() => self.borders[id],
            Ok(_) => CellBorders::default(),
        };
        Ok(
            XlsxCellStyle {
                display_format,
                visual_style: CellStyle { background_color, borders, ..font },
            },
        )
    }

    /// Takes a number format element in.
    fn read_number_format(&mut self, tag: &XmlTag) -> (read: Result<(), XlsxError>)
        ensures
            step_result(read, final(self)@) == old(self)@.after_number_format(tag@),
    {
        let id = match attr_usize(tag, "numFmtId") {
            Err(error) => {
                return Err(error);
            },
            Ok(id) => id,
        };
        let code = match attr_string(tag, "formatCode") {
            Err(error) => {
                return Err(error);
            },
            Ok(code) => code,
        };
        if let Some(id) = id {
            if let Some(code) = code {
                insert_format(&mut self.number_formats, id, code);
            }
        }
        Ok(())
    }

    /// Takes the opening of a border side in, which may be all of it.
    fn read_border_side(&mut self, tag: &XmlTag, side: BorderSide, is_empty: bool) -> (read: Result<
        (),
        XlsxError,
    >)
        ensures
            step_result(read, final(self)@) == old(self)@.after_border_side(tag@, side, is_empty),
    {
        let has_border = match attr_string(tag, "style") {
            Err(error) => {
                return Err(error);
            },
            Ok(Some(style)) => !same_text(style.as_str(), "none"),
            Ok(None) => false,
        };
        if has_border {
            set_border_side(&mut self.cursor.current_border, side, Some(DEFAULT_BORDER_COLOR));
        }
        self.cursor.current_side = if has_border && !is_empty {
            Some(side)
        } else {
            None
        };
        Ok(())
    }

    /// Takes a color element in.
    fn read_color(&mut self, tag: &XmlTag) -> (read: Result<(), XlsxError>)
        ensures
            step_result(read, final(self)@) == old(self)@.after_color(tag@),
    {
        if self.cursor.in_font {
            match attr_rgb(tag) {
                Err(error) => {
                    return Err(error);
                },
                Ok(color) => {
                    self.cursor.font.text_color = color;
                },
            }
        } else if self.cursor.in_border {
            if let Some(side) = self.cursor.current_side {
                match attr_rgb(tag) {
                    Err(error) => {
                        return Err(error);
                    },
                    Ok(Some(color)) => {
                        set_border_side(&mut self.cursor.current_border, side, Some(color));
                    },
                    Ok(None) => {},
                }
            }
        }
        Ok(())
    }

    /// Takes an alignment element in.
    fn read_alignment(&mut self, tag: &XmlTag) -> (read: Result<(), XlsxError>)
        ensures
            step_result(read, final(self)@) == old(self)@.after_alignment(tag@),
    {
        if let Some(style) = self.cursor.pending_xf {
            match attr_bool(tag, "wrapText") {
                Err(error) => {
                    return Err(error);
                },
                Ok(wrap_text) => {
                    if wrap_text {
                        let visual_style = CellStyle { wrap_text: true, ..style.visual_style };
                        self.cursor.pending_xf = Some(XlsxCellStyle { visual_style, ..style });
                    }
                },
            }
        }
        Ok(())
    }

    /// Takes a tag in that opens an element, or is all of it.
    fn read_tag(&mut self, tag: &XmlTag, is_empty: bool) -> (read: Result<(), XlsxError>)
        ensures
            step_result(read, final(self)@) == old(self)@.after_tag(tag@, is_empty),
    {
        match style_element(tag.local_name.as_str()) {
            StyleElement::NumberFormat => {
                return self.read_number_format(tag);
            },
            StyleElement::Color => {
                return self.read_color(tag);
            },
            StyleElement::Side(side) if self.cursor.in_border => {
                return self.read_border_side(tag, side, is_empty);
            },
            StyleElement::CellStyle if self.cursor.in_cell_xfs => {
                match self.xlsx_style_from_xf(tag) {
                    Err(error) => {
                        return Err(error);
                    },
                    Ok(style) => {
                        if is_empty {
                            self.styles.push(style);
                        } else {
                            self.cursor.pending_xf = Some(style);
                        }
                    },
                }
            },
            StyleElement::Alignment => {
                return self.read_alignment(tag);
            },
            StyleElement::PatternFill if !is_empty && self.cursor.in_fill => {
                match attr_string(tag, "patternType") {
                    Err(error) => {
                        return Err(error);
                    },
                    Ok(Some(kind)) => {
                        self.cursor.in_solid_pattern_fill = same_text(kind.as_str(), "solid");
                    },
                    Ok(None) => {
                        self.cursor.in_solid_pattern_fill = false;
                    },
                }
            },
            StyleElement::FillColor if self.cursor.in_solid_pattern_fill
                && self.cursor.fill_color.is_none() => {
                match attr_rgb(tag) {
                    Err(error) => {
                        return Err(error);
                    },
                    Ok(color) => {
                        self.cursor.fill_color = color;
                    },
                }
            },
            StyleElement::Border if is_empty && self.cursor.in_borders => {
                self.borders.push(CellBorders::default());
            },
            element => {
                self.cursor = self.cursor.open(element, is_empty);
            },
        }
        Ok(())
    }

    /// Takes a tag in that closes an element.
    fn read_end(&mut self, name: &str)
        ensures
            final(self)@ == old(self)@.after_end(name@),
    {
        match style_element(name) {
            StyleElement::CellStyles => {
                self.cursor.in_cell_xfs = false;
            },
            StyleElement::Fonts => {
                self.cursor.in_fonts = false;
            },
            StyleElement::Font if self.cursor.in_font => {
                self.cursor.in_font = false;
                self.fonts.push(self.cursor.font);
            },
            StyleElement::Fills => {
                self.cursor.in_fills = false;
            },
            StyleElement::Fill if self.cursor.in_fill => {
                self.cursor.in_fill = false;
                self.cursor.in_solid_pattern_fill = false;
                self.fills.push(self.cursor.fill_color);
            },
            StyleElement::PatternFill if self.cursor.in_fill => {
                self.cursor.in_solid_pattern_fill = false;
            },
            StyleElement::Borders => {
                self.cursor.in_borders = false;
            },
            StyleElement::Border if self.cursor.in_border => {
                self.cursor.in_border = false;
                self.cursor.current_side = None;
                self.borders.push(self.cursor.current_border);
            },
            StyleElement::Side(_) if self.cursor.in_border => {
                self.cursor.current_side = None;
            },
            StyleElement::CellStyle => {
                if let Some(style) = self.cursor.pending_xf {
                    self.styles.push(style);
                    self.cursor.pending_xf = None;
                }
            },
            _ => {},
        }
    }

    /// Takes one event in.
    pub fn read_event(&mut self, event: &XmlEvent) -> (read: Result<(), XlsxError>)
        ensures
            step_result(read, final(self)@) == old(self)@.after_event(event@),
    {
        match event {
            XmlEvent::Start(tag) => self.read_tag(tag, false),
            XmlEvent::Empty(tag) => self.read_tag(tag, true),
            XmlEvent::End(name) => {
                self.read_end(name.as_str());
                Ok(())
            },
            XmlEvent::Other => Ok(()),
        }
    }
}

/// The content of a list of cell styles, or the error in its place.
pub open spec fn styles_result(styles: Result<Vec<XlsxCellStyle>, XlsxError>) -> Result<
    Seq<XlsxCellStyle>,
    XlsxErrorView,
> {
    match styles {
        Ok(styles) => Ok(styles@),
        Err(error) => Err(error@),
    }
}

/// Gathers the cell styles of a style sheet.
pub fn styles_of_document(document: &XmlDocument) -> (styles: Result<
    Vec<XlsxCellStyle>,
    XlsxError,
>)
    ensures
        styles_result(styles) == document_styles(document@),
{
    let mut tables = StyleTables::new();
    let ghost events = document@.events;
    assert(events.skip(0) == events);
    let mut index: usize = 0;
    while index < document.events.len()
        invariant
            index <= document.events@.len(),
            events == document@.events,
            StyleTablesView::initial().after_events(events) == tables@.after_events(
                events.skip(index as int),
            ),
        decreases document.events@.len() - index,
    {
        assert(events.skip(index as int)[0] == document.events@[index as int]@);
        assert(events.skip(index as int).skip(1) == events.skip(index + 1));
        match tables.read_event(&document.events[index]) {
            Err(error) => {
                return Err(error);
            },
            Ok(()) => {},
        }
        index += 1;
    }
    match &document.error {
        Some(message) => Err(XlsxError::Xml(message.clone())),
        None => Ok(tables.styles),
    }
}

/// Reads the cell styles of a style sheet's XML text.
pub fn read_styles(styles_xml: &str) -> (styles: Result<Vec<XlsxCellStyle>, XlsxError>)
    ensures
        styles_result(styles) == document_styles(document_of(xml_items(styles_xml@))),
{
    styles_of_document(&read_document(styles_xml))
}

/// Each element of a style sheet is told by its own name.
pub proof fn style_elements_are_told_by_their_names()
    ensures
        element_named("numFmt"@) == StyleElement::NumberFormat,
        element_named("cellXfs"@) == StyleElement::CellStyles,
        element_named("fonts"@) == StyleElement::Fonts,
        element_named("font"@) == StyleElement::Font,
        element_named("b"@) == StyleElement::Bold,
        element_named("color"@) == StyleElement::Color,
        element_named("fills"@) == StyleElement::Fills,
        element_named("fill"@) == StyleElement::Fill,
        element_named("patternFill"@) == StyleElement::PatternFill,
        element_named("fgColor"@) == StyleElement::FillColor,
        element_named("borders"@) == StyleElement::Borders,
        element_named("border"@) == StyleElement::Border,
        element_named("xf"@) == StyleElement::CellStyle,
        element_named("alignment"@) == StyleElement::Alignment,
        element_named("top"@) == StyleElement::Side(BorderSide::Top),
        element_named("right"@) == StyleElement::Side(BorderSide::Right),
        element_named("bottom"@) == StyleElement::Side(BorderSide::Bottom),
        element_named("left"@) == StyleElement::Side(BorderSide::Left),
{
    reveal_strlit("numFmt");
    reveal_strlit("cellXfs");
    reveal_strlit("fonts");
    reveal_strlit("font");
    reveal_strlit("b");
    reveal_strlit("color");
    reveal_strlit("fills");
    reveal_strlit("fill");
    reveal_strlit("patternFill");
    reveal_strlit("fgColor");
    reveal_strlit("borders");
    reveal_strlit("border");
    reveal_strlit("xf");
    reveal_strlit("alignment");
    reveal_strlit("top");
    reveal_strlit("right");
    reveal_strlit("bottom");
    reveal_strlit("left");
    assert("numFmt"@.len() == 6 && "numFmt"@[0] == 'n' && "numFmt"@[1] == 'u');
    assert("cellXfs"@.len() == 7 && "cellXfs"@[0] == 'c' && "cellXfs"@[1] == 'e');
    assert("fonts"@.len() == 5 && "fonts"@[0] == 'f' && "fonts"@[1] == 'o');
    assert("font"@.len() == 4 && "font"@[0] == 'f' && "font"@[1] == 'o');
    assert("b"@.len() == 1 && "b"@[0] == 'b');
    assert("color"@.len() == 5 && "color"@[0] == 'c' && "color"@[1] == 'o');
    assert("fills"@.len() == 5 && "fills"@[0] == 'f' && "fills"@[1] == 'i');
    assert("fill"@.len() == 4 && "fill"@[0] == 'f' && "fill"@[1] == 'i');
    assert("patternFill"@.len() == 11 && "patternFill"@[0] == 'p' && "patternFill"@[1] == 'a');
    assert("fgColor"@.len() == 7 && "fgColor"@[0] == 'f' && "fgColor"@[1] == 'g');
    assert("borders"@.len() == 7 && "borders"@[0] == 'b' && "borders"@[1] == 'o');
    assert("border"@.len() == 6 && "border"@[0] == 'b' && "border"@[1] == 'o' && "border"@[2] == 'r');
    assert("xf"@.len() == 2 && "xf"@[0] == 'x' && "xf"@[1] == 'f');
    assert("alignment"@.len() == 9 && "alignment"@[0] == 'a' && "alignment"@[1] == 'l');
    assert("top"@.len() == 3 && "top"@[0] == 't' && "top"@[1] == 'o');
    assert("right"@.len() == 5 && "right"@[0] == 'r' && "right"@[1] == 'i');
    assert("bottom"@.len() == 6 && "bottom"@[0] == 'b' && "bottom"@[1] == 'o' && "bottom"@[2] == 't');
    assert("left"@.len() == 4 && "left"@[0] == 'l' && "left"@[1] == 'e');
}

/// The color that the last of the color tags gives, or `other` where there is none.
pub open spec fn last_color(tags: Seq<XmlTagView>, other: Option<u32>) -> Option<u32>
    decreases tags.len(),
{
    if tags.len() == 0 {
        other
    } else if tags.last().local_name == "color"@ {
        tags.last().color()->Ok_0
    } else {
        last_color(tags.drop_last(), other)
    }
}

/// Tags without content, as events.
pub open spec fn empty_tags(tags: Seq<XmlTagView>) -> Seq<XmlEventView> {
    tags.map_values(|tag: XmlTagView| XmlEventView::Empty(tag))
}

proof fn lemma_events_in_turn(
    tables: StyleTablesView,
    first: Seq<XmlEventView>,
    second: Seq<XmlEventView>,
)
    ensures
        tables.after_events(first + second) == match tables.after_events(first) {
            Err(error) => Err(error),
            Ok(next) => next.after_events(second),
        },
    decreases first.len(),
{
    if first.len() == 0 {
        assert(first + second =~= second);
    } else {
        assert((first + second).skip(1) =~= first.skip(1) + second);
        assert((first + second)[0] == first[0]);
        match tables.after_event(first[0]) {
            Err(_) => {},
            Ok(next) => {
                lemma_events_in_turn(next, first.skip(1), second);
            },
        }
    }
}

/// The events of a style sheet are taken in one after the other: those in front never depend
/// on those behind.
pub proof fn style_events_are_taken_in_turn(
    tables: StyleTablesView,
    first: Seq<XmlEventView>,
    second: Seq<XmlEventView>,
)
    ensures
        tables.after_events(first) is Err ==> tables.after_events(first + second)
            == tables.after_events(first),
        tables.after_events(first) matches Ok(next) ==> tables.after_events(first + second)
            == next.after_events(second),
{
    lemma_events_in_turn(tables, first, second);
}

/// Whether a tag in a font says that it is bold, gives a color, or has a name that no table
/// knows.
pub open spec fn is_font_part(tag: XmlTagView) -> bool {
    &&& element_named(tag.local_name) is Bold || element_named(tag.local_name) is Color
        || element_named(tag.local_name) is Other
    &&& tag.local_name == "color"@ ==> tag.color() is Ok
}

proof fn lemma_font_parts(tables: StyleTablesView, parts: Seq<XmlTagView>)
    requires
        tables.cursor.in_font,
        forall|i: int| 0 <= i < parts.len() ==> is_font_part(#[trigger] parts[i]),
    ensures
        tables.after_events(empty_tags(parts)) == Ok::<StyleTablesView, XlsxErrorView>(
            tables.at(
                StyleCursor {
                    font: CellStyle {
                        bold: tables.cursor.font.bold || exists|i: int|
                            0 <= i < parts.len() && (#[trigger] parts[i]).local_name == "b"@,
                        text_color: last_color(parts, tables.cursor.font.text_color),
                        ..tables.cursor.font
                    },
                    ..tables.cursor
                },
            ),
        ),
    decreases parts.len(),
{
    let events = empty_tags(parts);
    if parts.len() > 0 {
        let fewer = parts.drop_last();
        assert forall|i: int| 0 <= i < fewer.len() implies is_font_part(#[trigger] fewer[i]) by {
            assert(fewer[i] == parts[i]);
        }
        lemma_font_parts(tables, fewer);
        let tag = parts.last();
        assert(parts[parts.len() - 1] == tag);
        assert(is_font_part(tag));
        assert(events =~= empty_tags(fewer) + seq![XmlEventView::Empty(tag)]);
        lemma_events_in_turn(tables, empty_tags(fewer), seq![XmlEventView::Empty(tag)]);
        let before = tables.after_events(empty_tags(fewer))->Ok_0;
        lemma_one_event(before, XmlEventView::Empty(tag));
        lemma_font_part(before, tag);
        let bold_before = exists|i: int|
            0 <= i < fewer.len() && (#[trigger] fewer[i]).local_name == "b"@;
        let bold_after = exists|i: int|
            0 <= i < parts.len() && (#[trigger] parts[i]).local_name == "b"@;
        if bold_before {
            let i = choose|i: int| 0 <= i < fewer.len() && (#[trigger] fewer[i]).local_name == "b"@;
            assert(parts[i].local_name == "b"@);
        }
        if bold_after && tag.local_name != "b"@ {
            let i = choose|i: int| 0 <= i < parts.len() && (#[trigger] parts[i]).local_name == "b"@;
            assert(fewer[i].local_name == "b"@);
        }
        assert(bold_after == (bold_before || tag.local_name == "b"@));
    } else {
        assert(events =~= Seq::<XmlEventView>::empty());
    }
}

proof fn lemma_one_event(tables: StyleTablesView, event: XmlEventView)
    ensures
        tables.after_events(seq![event]) == tables.after_event(event),
{
    assert(seq![event].skip(1) =~= Seq::<XmlEventView>::empty());
    match tables.after_event(event) {
        Err(_) => {},
        Ok(next) => {
            assert(next.after_events(seq![event].skip(1)) == Ok::<
                StyleTablesView,
                XlsxErrorView,
            >(next));
        },
    }
}

proof fn lemma_font_part(tables: StyleTablesView, tag: XmlTagView)
    requires
        tables.cursor.in_font,
        is_font_part(tag),
    ensures
        tables.after_event(XmlEventView::Empty(tag)) == Ok::<StyleTablesView, XlsxErrorView>(
            tables.at(
                StyleCursor {
                    font: CellStyle {
                        bold: tables.cursor.font.bold || tag.local_name == "b"@,
                        text_color: if tag.local_name == "color"@ {
                            tag.color()->Ok_0
                        } else {
                            tables.cursor.font.text_color
                        },
                        ..tables.cursor.font
                    },
                    ..tables.cursor
                },
            ),
        ),
{
    lemma_names_decide(tag.local_name);
}

proof fn lemma_names_decide(name: Seq<char>)
    ensures
        element_named(name) is Bold <==> name == "b"@,
        element_named(name) is Color <==> name == "color"@,
{
    style_elements_are_told_by_their_names();
}

/// A font in a list of fonts adds one entry: bold where one of its tags says so, and in the
/// color that the last color tag gives.
pub proof fn fonts_are_as_bold_and_colored_as_written(
    tables: StyleTablesView,
    font: XmlTagView,
    parts: Seq<XmlTagView>,
)
    requires
        tables.cursor.in_fonts,
        font.local_name == "font"@,
        forall|i: int| 0 <= i < parts.len() ==> is_font_part(#[trigger] parts[i]),
    ensures
        ({
            let events = seq![XmlEventView::Start(font)] + empty_tags(parts) + seq![
                XmlEventView::End("font"@),
            ];
            let after = tables.after_events(events)->Ok_0;
            &&& tables.after_events(events) is Ok
            &&& after.fonts.len() == tables.fonts.len() + 1
            &&& after.fonts.drop_last() == tables.fonts
            &&& after.fonts.last().bold <==> exists|i: int|
                0 <= i < parts.len() && (#[trigger] parts[i]).local_name == "b"@
            &&& after.fonts.last().text_color == last_color(parts, None)
            &&& after.fonts.last().background_color is None
            &&& !after.fonts.last().wrap_text
            &&& after.fills == tables.fills && after.borders == tables.borders && after.styles
                == tables.styles && after.number_formats == tables.number_formats
            &&& after.cursor.in_fonts && !after.cursor.in_font
        }),
{
    assert(element_named("font"@) == StyleElement::Font) by {
        style_elements_are_told_by_their_names();
    }
    let start = seq![XmlEventView::Start(font)];
    let end = seq![XmlEventView::End("font"@)];
    lemma_events_in_turn(tables, start + empty_tags(parts), end);
    lemma_events_in_turn(tables, start, empty_tags(parts));
    lemma_one_event(tables, XmlEventView::Start(font));
    let opened = tables.after_events(start)->Ok_0;
    lemma_font_parts(opened, parts);
    let filled = opened.after_events(empty_tags(parts))->Ok_0;
    lemma_one_event(filled, XmlEventView::End("font"@));
    assert(filled.after_end("font"@).fonts.drop_last() =~= tables.fonts);
}

/// A fill in a list of fills adds one entry: the color of a solid pattern, and none for any
/// other pattern.
pub proof fn only_solid_fills_have_a_color(
    tables: StyleTablesView,
    fill: XmlTagView,
    pattern: XmlTagView,
    color: XmlTagView,
)
    requires
        tables.cursor.in_fills,
        fill.local_name == "fill"@,
        pattern.local_name == "patternFill"@,
        color.local_name == "fgColor"@,
        pattern.attribute("patternType"@) is Ok,
        color.color() is Ok,
    ensures
        ({
            let events = seq![
                XmlEventView::Start(fill),
                XmlEventView::Start(pattern),
                XmlEventView::Empty(color),
                XmlEventView::End("patternFill"@),
                XmlEventView::End("fill"@),
            ];
            let after = tables.after_events(events)->Ok_0;
            let solid = pattern.attribute("patternType"@)->Ok_0 == Some(
                seq!['s', 'o', 'l', 'i', 'd'],
            );
            &&& tables.after_events(events) is Ok
            &&& solid ==> after.fills == tables.fills.push(color.color()->Ok_0)
            &&& !solid ==> after.fills == tables.fills.push(None)
            &&& after.fonts == tables.fonts && after.borders == tables.borders && after.styles
                == tables.styles
            &&& after.cursor.in_fills && !after.cursor.in_fill
        }),
{
    assert(element_named("fill"@) == StyleElement::Fill && element_named("patternFill"@)
        == StyleElement::PatternFill && element_named("fgColor"@) == StyleElement::FillColor) by {
        style_elements_are_told_by_their_names();
    }
    assert("solid"@ =~= seq!['s', 'o', 'l', 'i', 'd']) by {
        reveal_strlit("solid");
    }
    let e1 = XmlEventView::Start(fill);
    let e2 = XmlEventView::Start(pattern);
    let e3 = XmlEventView::Empty(color);
    let e4 = XmlEventView::End("patternFill"@);
    let e5 = XmlEventView::End("fill"@);
    lemma_fill_start(tables, fill);
    let t1 = tables.after_event(e1)->Ok_0;
    lemma_pattern_start(t1, pattern);
    let t2 = t1.after_event(e2)->Ok_0;
    lemma_fill_color(t2, color);
    let t3 = t2.after_event(e3)->Ok_0;
    lemma_fill_ends(t3);
    let t4 = t3.after_event(e4)->Ok_0;
    lemma_fill_ends(t4);
    lemma_five_events(tables, e1, e2, e3, e4, e5);
}

proof fn lemma_fill_start(tables: StyleTablesView, tag: XmlTagView)
    requires
        element_named(tag.local_name) == StyleElement::Fill,
        tables.cursor.in_fills,
    ensures
        tables.after_event(XmlEventView::Start(tag)) == Ok::<StyleTablesView, XlsxErrorView>(
            tables.at(
                StyleCursor {
                    in_fill: true,
                    in_solid_pattern_fill: false,
                    fill_color: None,
                    ..tables.cursor
                },
            ),
        ),
{
}

proof fn lemma_pattern_start(tables: StyleTablesView, tag: XmlTagView)
    requires
        element_named(tag.local_name) == StyleElement::PatternFill,
        tables.cursor.in_fill,
        tag.attribute("patternType"@) is Ok,
    ensures
        tables.after_event(XmlEventView::Start(tag)) == Ok::<StyleTablesView, XlsxErrorView>(
            tables.at(
                StyleCursor {
                    in_solid_pattern_fill: tag.attribute("patternType"@)->Ok_0 == Some("solid"@),
                    ..tables.cursor
                },
            ),
        ),
{
}

proof fn lemma_fill_color(tables: StyleTablesView, tag: XmlTagView)
    requires
        element_named(tag.local_name) == StyleElement::FillColor,
        tag.color() is Ok,
    ensures
        tables.after_event(XmlEventView::Empty(tag)) == Ok::<StyleTablesView, XlsxErrorView>(
            if tables.cursor.in_solid_pattern_fill && tables.cursor.fill_color is None {
                tables.at(StyleCursor { fill_color: tag.color()->Ok_0, ..tables.cursor })
            } else {
                tables
            },
        ),
{
}

proof fn lemma_fill_ends(tables: StyleTablesView)
    requires
        element_named("fill"@) == StyleElement::Fill,
        element_named("patternFill"@) == StyleElement::PatternFill,
        tables.cursor.in_fill,
    ensures
        tables.after_event(XmlEventView::End("patternFill"@)) == Ok::<
            StyleTablesView,
            XlsxErrorView,
        >(tables.at(StyleCursor { in_solid_pattern_fill: false, ..tables.cursor })),
        tables.after_event(XmlEventView::End("fill"@)) == Ok::<StyleTablesView, XlsxErrorView>(
            StyleTablesView {
                fills: tables.fills.push(tables.cursor.fill_color),
                cursor: StyleCursor {
                    in_fill: false,
                    in_solid_pattern_fill: false,
                    ..tables.cursor
                },
                ..tables
            },
        ),
{
}

/// Events that are taken in, one after the other.
proof fn lemma_five_events(
    tables: StyleTablesView,
    e1: XmlEventView,
    e2: XmlEventView,
    e3: XmlEventView,
    e4: XmlEventView,
    e5: XmlEventView,
)
    ensures
        ({
            let t1 = tables.after_event(e1);
            let t2 = t1->Ok_0.after_event(e2);
            let t3 = t2->Ok_0.after_event(e3);
            let t4 = t3->Ok_0.after_event(e4);
            let t5 = t4->Ok_0.after_event(e5);
            t1 is Ok && t2 is Ok && t3 is Ok && t4 is Ok ==> tables.after_events(
                seq![e1, e2, e3, e4, e5],
            ) == t5
        }),
{
    let t1 = tables.after_event(e1);
    let t2 = t1->Ok_0.after_event(e2);
    if t1 is Ok && t2 is Ok {
        lemma_three_events(t2->Ok_0, e3, e4, e5);
        lemma_one_event(tables, e1);
        lemma_one_event(t1->Ok_0, e2);
        assert(seq![e1, e2, e3, e4, e5] =~= seq![e1] + (seq![e2] + seq![e3, e4, e5]));
        lemma_events_in_turn(tables, seq![e1], seq![e2] + seq![e3, e4, e5]);
        lemma_events_in_turn(t1->Ok_0, seq![e2], seq![e3, e4, e5]);
    }
}

proof fn lemma_three_events(
    tables: StyleTablesView,
    e1: XmlEventView,
    e2: XmlEventView,
    e3: XmlEventView,
)
    ensures
        ({
            let t1 = tables.after_event(e1);
            let t2 = t1->Ok_0.after_event(e2);
            let t3 = t2->Ok_0.after_event(e3);
            t1 is Ok && t2 is Ok ==> tables.after_events(seq![e1, e2, e3]) == t3
        }),
{
    let t1 = tables.after_event(e1);
    let t2 = t1->Ok_0.after_event(e2);
    lemma_one_event(tables, e1);
    lemma_one_event(t1->Ok_0, e2);
    lemma_one_event(t2->Ok_0, e3);
    assert(seq![e1, e2, e3] =~= seq![e1] + (seq![e2] + seq![e3]));
    lemma_events_in_turn(tables, seq![e1], seq![e2] + seq![e3]);
    lemma_events_in_turn(t1->Ok_0, seq![e2], seq![e3]);
}

proof fn lemma_side_names(name: Seq<char>)
    requires
        side_named(name) is Some,
    ensures
        element_named(name) == StyleElement::Side(side_named(name)->0),
        side_named(name)->0 == BorderSide::Top <==> name == "top"@,
        side_named(name)->0 == BorderSide::Right <==> name == "right"@,
        side_named(name)->0 == BorderSide::Bottom <==> name == "bottom"@,
        side_named(name)->0 == BorderSide::Left <==> name == "left"@,
{
    style_elements_are_told_by_their_names();
}

proof fn lemma_side_tag(tables: StyleTablesView, tag: XmlTagView, side: BorderSide)
    requires
        element_named(tag.local_name) == StyleElement::Side(side),
        tables.cursor.in_border,
    ensures
        tables.after_event(XmlEventView::Start(tag)) == tables.after_border_side(tag, side, false),
        tables.after_event(XmlEventView::Empty(tag)) == tables.after_border_side(tag, side, true),
        tables.after_event(XmlEventView::End(tag.local_name)) == Ok::<
            StyleTablesView,
            XlsxErrorView,
        >(tables.at(StyleCursor { current_side: None, ..tables.cursor })),
{
}

proof fn lemma_color_tag(tables: StyleTablesView, tag: XmlTagView)
    requires
        tag.local_name == "color"@,
    ensures
        tables.after_event(XmlEventView::Empty(tag)) == tables.after_color(tag),
{
    assert(element_named("color"@) == StyleElement::Color) by {
        style_elements_are_told_by_their_names();
    }
}

/// What a side is drawn in, where it is drawn.
spec fn shown_color(color: Option<u32>) -> u32 {
    match color {
        Some(color) => color,
        None => 0,
    }
}

/// Whether a side with this style is drawn.
spec fn is_drawn(style: Option<Seq<char>>) -> bool {
    style is Some && style->0 != seq!['n', 'o', 'n', 'e']
}

proof fn lemma_side_events(
    tables: StyleTablesView,
    side: XmlTagView,
    color: XmlTagView,
    which: BorderSide,
)
    requires
        tables.cursor.in_border,
        !tables.cursor.in_font,
        element_named(side.local_name) == StyleElement::Side(which),
        color.local_name == "color"@,
        side.attribute("style"@) is Ok,
        color.color() is Ok,
    ensures
        ({
            let events = seq![
                XmlEventView::Start(side),
                XmlEventView::Empty(color),
                XmlEventView::End(side.local_name),
            ];
            let drawn = is_drawn(side.attribute("style"@)->Ok_0);
            let after = tables.after_events(events);
            let old = tables.cursor.current_border;
            &&& after is Ok
            &&& after->Ok_0.cursor.current_border == if drawn {
                with_side(old, which, Some(shown_color(color.color()->Ok_0)))
            } else {
                old
            }
            &&& after->Ok_0.cursor.current_side is None
            &&& after->Ok_0.cursor.in_border
            &&& after->Ok_0.borders == tables.borders
            &&& tables.after_event(XmlEventView::Empty(side)) is Ok
            &&& tables.after_event(XmlEventView::Empty(side))->Ok_0.cursor.current_border
                == if drawn {
                with_side(old, which, Some(0))
            } else {
                old
            }
        }),
{
    reveal_strlit("none");
    assert("none"@ =~= seq!['n', 'o', 'n', 'e']);
    let (start, inner, end) = (
        XmlEventView::Start(side),
        XmlEventView::Empty(color),
        XmlEventView::End(side.local_name),
    );
    let events = seq![start, inner, end];
    lemma_side_tag(tables, side, which);
    let first = tables.after_border_side(side, which, false)->Ok_0;
    lemma_color_tag(first, color);
    let second = first.after_color(color)->Ok_0;
    lemma_side_tag(second, side, which);
    lemma_three_events(tables, start, inner, end);
}

/// A side of a border that has a style is drawn in the color that its tag gives, and in black
/// where it gives none. A side without a style, or with the style for none, is left as it was,
/// and so are the other sides.
pub proof fn styled_sides_are_drawn_in_their_color(
    tables: StyleTablesView,
    side: XmlTagView,
    color: XmlTagView,
)
    requires
        tables.cursor.in_border,
        !tables.cursor.in_font,
        side_named(side.local_name) is Some,
        color.local_name == "color"@,
        side.attribute("style"@) is Ok,
        color.color() is Ok,
    ensures
        ({
            let name = side.local_name;
            let events = seq![
                XmlEventView::Start(side),
                XmlEventView::Empty(color),
                XmlEventView::End(name),
            ];
            let style = side.attribute("style"@)->Ok_0;
            let drawn = style is Some && style->0 != seq!['n', 'o', 'n', 'e'];
            let shown = Some(
                match color.color()->Ok_0 {
                    Some(given) => given,
                    None => 0,
                },
            );
            let old = tables.cursor.current_border;
            let new = tables.after_events(events)->Ok_0.cursor.current_border;
            let plain = tables.after_event(
                XmlEventView::Empty(side),
            )->Ok_0.cursor.current_border;
            &&& tables.after_events(events) is Ok
            &&& !drawn ==> new == old && plain == old
            &&& drawn && name == "top"@ ==> new.top == shown && plain.top == Some(0u32)
            &&& drawn && name == "right"@ ==> new.right == shown && plain.right == Some(0u32)
            &&& drawn && name == "bottom"@ ==> new.bottom == shown && plain.bottom == Some(0u32)
            &&& drawn && name == "left"@ ==> new.left == shown && plain.left == Some(0u32)
            &&& name != "top"@ ==> new.top == old.top && plain.top == old.top
            &&& name != "right"@ ==> new.right == old.right && plain.right == old.right
            &&& name != "bottom"@ ==> new.bottom == old.bottom && plain.bottom == old.bottom
            &&& name != "left"@ ==> new.left == old.left && plain.left == old.left
        }),
{
    lemma_side_names(side.local_name);
    lemma_side_events(tables, side, color, side_named(side.local_name)->0);
}

/// A border begins without sides and adds one entry where it ends; one without content has no
/// sides.
pub proof fn borders_begin_without_sides(tables: StyleTablesView, border: XmlTagView)
    requires
        tables.cursor.in_borders,
        border.local_name == "border"@,
    ensures
        tables.after_event(XmlEventView::Start(border)) is Ok,
        tables.after_event(XmlEventView::Start(border))->Ok_0.cursor.in_border,
        tables.after_event(XmlEventView::Start(border))->Ok_0.cursor.current_border == (
        CellBorders { top: None, right: None, bottom: None, left: None }),
        tables.after_event(XmlEventView::Start(border))->Ok_0.borders == tables.borders,
        tables.after_event(XmlEventView::Empty(border)) is Ok,
        tables.after_event(XmlEventView::Empty(border))->Ok_0.borders == tables.borders.push(
            (CellBorders { top: None, right: None, bottom: None, left: None }),
        ),
        tables.cursor.in_border ==> tables.after_end("border"@).borders == tables.borders.push(
            tables.cursor.current_border,
        ) && !tables.after_end("border"@).cursor.in_border,
{
    assert(element_named("border"@) == StyleElement::Border) by {
        style_elements_are_told_by_their_names();
    }
}

/// A cell style takes the font, the fill, the border and the number format that it names by
/// their numbers, and wraps its text where its alignment says so. Behind it the list of styles
/// has one entry more.
pub proof fn cell_styles_take_what_they_name(
    tables: StyleTablesView,
    xf: XmlTagView,
    alignment: XmlTagView,
    font: usize,
    fill: usize,
    border: usize,
    format: usize,
)
    requires
        tables.cursor.in_cell_xfs,
        xf.local_name == "xf"@,
        alignment.local_name == "alignment"@,
        xf.number("fontId"@) == Ok::<Option<usize>, XlsxErrorView>(Some(font)),
        xf.number("fillId"@) == Ok::<Option<usize>, XlsxErrorView>(Some(fill)),
        xf.number("borderId"@) == Ok::<Option<usize>, XlsxErrorView>(Some(border)),
        xf.number("numFmtId"@) == Ok::<Option<usize>, XlsxErrorView>(Some(format)),
        font < tables.fonts.len(),
        fill < tables.fills.len(),
        border < tables.borders.len(),
        alignment.flag("wrapText"@) is Ok,
    ensures
        ({
            let events = seq![
                XmlEventView::Start(xf),
                XmlEventView::Empty(alignment),
                XmlEventView::End("xf"@),
            ];
            let after = tables.after_events(events)->Ok_0;
            let style = after.styles.last();
            &&& tables.after_events(events) is Ok
            &&& after.styles == tables.styles.push(style)
            &&& style.visual_style.bold == tables.fonts[font as int].bold
            &&& style.visual_style.text_color == tables.fonts[font as int].text_color
            &&& style.visual_style.background_color == tables.fills[fill as int]
            &&& style.visual_style.borders == tables.borders[border as int]
            &&& alignment.flag("wrapText"@)->Ok_0 ==> style.visual_style.wrap_text
            &&& !alignment.flag("wrapText"@)->Ok_0 ==> style.visual_style.wrap_text
                == tables.fonts[font as int].wrap_text
            &&& tables.number_formats.contains_key(format) ==> style.display_format
                == display_format_of(tables.number_formats[format])
            &&& !tables.number_formats.contains_key(format) ==> style.display_format is None
            &&& after.cursor.pending_xf is None
            &&& tables.after_event(XmlEventView::Empty(xf)) is Ok
            &&& tables.after_event(XmlEventView::Empty(xf))->Ok_0.styles.len()
                == tables.styles.len() + 1
            &&& tables.after_event(XmlEventView::Empty(xf))->Ok_0.styles.last() == (
            XlsxCellStyle {
                visual_style: CellStyle {
                    wrap_text: tables.fonts[font as int].wrap_text,
                    ..style.visual_style
                },
                ..style
            })
        }),
{
    assert(element_named("xf"@) == StyleElement::CellStyle && element_named("alignment"@)
        == StyleElement::Alignment) by {
        style_elements_are_told_by_their_names();
    }
    let (start, inner, end) = (
        XmlEventView::Start(xf),
        XmlEventView::Empty(alignment),
        XmlEventView::End("xf"@),
    );
    lemma_xf_tag(tables, xf);
    let t1 = tables.after_event(start)->Ok_0;
    lemma_alignment_tag(t1, alignment);
    let t2 = t1.after_event(inner)->Ok_0;
    lemma_xf_end(t2);
    lemma_three_events(tables, start, inner, end);
    let after = tables.after_events(seq![start, inner, end])->Ok_0;
    assert(after.styles.drop_last() =~= tables.styles);
}

proof fn lemma_xf_tag(tables: StyleTablesView, tag: XmlTagView)
    requires
        element_named(tag.local_name) == StyleElement::CellStyle,
        tables.cursor.in_cell_xfs,
        tables.style_of_xf(tag) is Ok,
    ensures
        tables.after_event(XmlEventView::Start(tag)) == Ok::<StyleTablesView, XlsxErrorView>(
            tables.at(
                StyleCursor { pending_xf: Some(tables.style_of_xf(tag)->Ok_0), ..tables.cursor },
            ),
        ),
        tables.after_event(XmlEventView::Empty(tag)) == Ok::<StyleTablesView, XlsxErrorView>(
            StyleTablesView { styles: tables.styles.push(tables.style_of_xf(tag)->Ok_0), ..tables },
        ),
{
}

proof fn lemma_alignment_tag(tables: StyleTablesView, tag: XmlTagView)
    requires
        element_named(tag.local_name) == StyleElement::Alignment,
    ensures
        tables.after_event(XmlEventView::Empty(tag)) == tables.after_alignment(tag),
{
}

proof fn lemma_xf_end(tables: StyleTablesView)
    requires
        element_named("xf"@) == StyleElement::CellStyle,
        tables.cursor.pending_xf is Some,
    ensures
        tables.after_event(XmlEventView::End("xf"@)) == Ok::<StyleTablesView, XlsxErrorView>(
            StyleTablesView {
                styles: tables.styles.push(tables.cursor.pending_xf->0),
                cursor: StyleCursor { pending_xf: None, ..tables.cursor },
                ..tables
            },
        ),
{
}

/// What a cell style does not name, or names by a number that no entry has, is plain.
pub proof fn missing_parts_of_a_style_are_plain(tables: StyleTablesView, xf: XmlTagView)
    requires
        xf.number("fontId"@) is Ok,
        xf.number("fillId"@) is Ok,
        xf.number("borderId"@) is Ok,
        xf.number("numFmtId"@) is Ok,
    ensures
        tables.style_of_xf(xf) is Ok,
        ({
            let style = tables.style_of_xf(xf)->Ok_0;
            let (font, fill) = (xf.number("fontId"@)->Ok_0, xf.number("fillId"@)->Ok_0);
            let (border, format) = (xf.number("borderId"@)->Ok_0, xf.number("numFmtId"@)->Ok_0);
            &&& font is None || font->0 >= tables.fonts.len() ==> !style.visual_style.bold
                && style.visual_style.text_color is None && !style.visual_style.wrap_text
            &&& fill is None || fill->0 >= tables.fills.len()
                ==> style.visual_style.background_color is None
            &&& border is None || border->0 >= tables.borders.len() ==> style.visual_style.borders
                == (CellBorders { top: None, right: None, bottom: None, left: None })
            &&& format is None ==> style.display_format is None
        }),
{
}

/// A number format that the style sheet declares is the one with its number from there on; the
/// others stay.
pub proof fn declared_formats_replace_builtin_ones(
    tables: StyleTablesView,
    tag: XmlTagView,
    id: usize,
    code: Seq<char>,
    other: usize,
)
    requires
        tag.local_name == "numFmt"@,
        tag.number("numFmtId"@) == Ok::<Option<usize>, XlsxErrorView>(Some(id)),
        tag.attribute("formatCode"@) == Ok::<Option<Seq<char>>, XlsxErrorView>(Some(code)),
        other != id,
    ensures
        ({
            let after = tables.after_event(XmlEventView::Empty(tag))->Ok_0;
            &&& tables.after_event(XmlEventView::Empty(tag)) is Ok
            &&& after.number_formats.contains_key(id) && after.number_formats[id] == code
            &&& after.number_formats.contains_key(other) == tables.number_formats.contains_key(
                other,
            )
            &&& tables.number_formats.contains_key(other) ==> after.number_formats[other]
                == tables.number_formats[other]
        }),
{
    assert(element_named("numFmt"@) == StyleElement::NumberFormat) by {
        style_elements_are_told_by_their_names();
    }
}

/// Fonts, fills, borders and cell styles count only in their own lists.
pub proof fn entries_count_in_their_lists_only(tables: StyleTablesView, tag: XmlTagView)
    ensures
        !tables.cursor.in_fonts && tag.local_name == "font"@ ==> tables.after_event(
            XmlEventView::Start(tag),
        ) == Ok::<StyleTablesView, XlsxErrorView>(tables),
        !tables.cursor.in_fills && tag.local_name == "fill"@ ==> tables.after_event(
            XmlEventView::Start(tag),
        ) == Ok::<StyleTablesView, XlsxErrorView>(tables),
        !tables.cursor.in_borders && tag.local_name == "border"@ ==> tables.after_event(
            XmlEventView::Start(tag),
        ) == Ok::<StyleTablesView, XlsxErrorView>(tables),
        !tables.cursor.in_cell_xfs && tag.local_name == "xf"@ ==> tables.after_event(
            XmlEventView::Start(tag),
        ) == Ok::<StyleTablesView, XlsxErrorView>(tables),
{
    assert(element_named("font"@) == StyleElement::Font && element_named("fill"@)
        == StyleElement::Fill && element_named("border"@) == StyleElement::Border
        && element_named("xf"@) == StyleElement::CellStyle) by {
        style_elements_are_told_by_their_names();
    }
}

/// A list of cell styles begins where its tag opens and ends where it closes; one without content
/// begins nothing.
pub proof fn style_lists_begin_and_end(tables: StyleTablesView, tag: XmlTagView)
    requires
        tag.local_name == "cellXfs"@,
    ensures
        tables.after_event(XmlEventView::Start(tag)) is Ok,
        tables.after_event(XmlEventView::Start(tag))->Ok_0.cursor.in_cell_xfs,
        tables.after_event(XmlEventView::Empty(tag)) == Ok::<StyleTablesView, XlsxErrorView>(
            tables,
        ),
        tables.after_event(XmlEventView::End(tag.local_name)) is Ok,
        !tables.after_event(XmlEventView::End(tag.local_name))->Ok_0.cursor.in_cell_xfs,
        tables.after_event(XmlEventView::End(tag.local_name))->Ok_0.styles == tables.styles,
{
    assert(element_named("cellXfs"@) == StyleElement::CellStyles) by {
        style_elements_are_told_by_their_names();
    }
}

} // verus!
