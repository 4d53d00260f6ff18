//! What an XLSX sheet says besides its values: cell styles, sizes, frozen panes
//! and merged ranges.
//!
//! Sizes are kept as the decimal texts that the sheet gives, in the sheet's own
//! units.

use std::collections::HashMap;

use vstd::prelude::*;

use crate::attributes::{attr_float, attr_usize};
use crate::cell::text_view;
use crate::errors::{step_result, viewed_result, XlsxError, XlsxErrorView};
use crate::range::{CellCoord, CellRange};
use crate::references::{
    cell_label_spec, checked_cell_ref, checked_merge_ref, column_fits, label_refers_to_its_cell,
    labels_name_a_merged_range, merge_ref_fits, merged_range, reference_indices,
};
use crate::styles::{default_cell_style, XlsxCellStyle};
use crate::text::same_text;
use crate::xml::{
    attr_string, document_of, read_document, xml_items, XmlDocument, XmlDocumentView, XmlEvent,
    XmlEventView, XmlTag, XmlTagView,
};

verus! {

broadcast use vstd::std_specs::hash::group_hash_axioms;

/// The styles of a sheet's cells, by position.
pub struct CellStyles {
    styles: HashMap<u128, XlsxCellStyle>,
}

/// The number that stands for a position.
spec fn position_key(coord: CellCoord) -> u128 {
    (coord.row * 0x1_0000_0000_0000_0000 + coord.col) as u128
}

fn key_of(row: usize, col: usize) -> (key: u128)
    ensures
        key == position_key(CellCoord { row, col }),
        key == row * 0x1_0000_0000_0000_0000 + col,
{
    row as u128 * 0x1_0000_0000_0000_0000 + col as u128
}

impl View for CellStyles {
    type V = Map<CellCoord, XlsxCellStyle>;

    closed spec fn view(&self) -> Map<CellCoord, XlsxCellStyle> {
        Map::new(
            |coord: CellCoord| self.styles@.contains_key(position_key(coord)),
            |coord: CellCoord| self.styles@[position_key(coord)],
        )
    }
}

/// The style of a cell, plain where none is given.
pub open spec fn style_at(styles: Map<CellCoord, XlsxCellStyle>, coord: CellCoord) -> XlsxCellStyle {
    if styles.contains_key(coord) {
        styles[coord]
    } else {
        default_cell_style()
    }
}

impl CellStyles {
    /// No styles.
    pub fn new() -> (styles: CellStyles)
        ensures
            styles@ == Map::<CellCoord, XlsxCellStyle>::empty(),
    {
        let styles = CellStyles { styles: HashMap::new() };
        assert(styles@ =~= Map::<CellCoord, XlsxCellStyle>::empty());
        styles
    }

    /// Sets the style of a cell.
    pub fn insert(&mut self, coord: CellCoord, style: XlsxCellStyle)
        ensures
            final(self)@ == old(self)@.insert(coord, style),
    {
        let key: u128 = key_of(coord.row, coord.col);
        self.styles.insert(key, style);
        proof {
            assert forall|other: CellCoord| position_key(other) == key implies other == coord by {
                assert(other.row * 0x1_0000_0000_0000_0000 + other.col == coord.row
                    * 0x1_0000_0000_0000_0000 + coord.col);
            }
            assert(self@ =~= old(self)@.insert(coord, style));
        }
    }

    /// The style of a cell, plain where none is given.
    pub fn get(&self, row: usize, col: usize) -> (style: XlsxCellStyle)
        ensures
            style == style_at(self@, CellCoord { row, col }),
    {
        match self.styles.get(&key_of(row, col)) {
            Some(style) => *style,
            None => XlsxCellStyle::default(),
        }
    }
}

/// The frozen pane of a sheet, by the texts that give its extent.
pub struct FrozenPane {
    pub rows: Option<String>,
    pub columns: Option<String>,
}

/// The mathematical content of a [`FrozenPane`].
#[verifier::ext_equal]
pub struct FrozenPaneView {
    pub rows: Option<Seq<char>>,
    pub columns: Option<Seq<char>>,
}

impl View for FrozenPane {
    type V = FrozenPaneView;

    open spec fn view(&self) -> FrozenPaneView {
        FrozenPaneView { rows: text_view(self.rows), columns: text_view(self.columns) }
    }
}

/// What a sheet says besides its values.
pub struct SheetMetadata {
    pub cell_styles: CellStyles,
    /// The widths of the first columns; `None` where a column has none.
    pub column_widths: Vec<Option<String>>,
    /// The heights of the first rows; `None` where a row has none.
    pub row_heights: Vec<Option<String>>,
    pub default_column_width: Option<String>,
    pub default_row_height: Option<String>,
    pub pane: Option<FrozenPane>,
    pub merges: Vec<CellRange>,
}

/// The mathematical content of [`SheetMetadata`].
#[verifier::ext_equal]
pub struct SheetMetadataView {
    pub cell_styles: Map<CellCoord, XlsxCellStyle>,
    pub column_widths: Seq<Option<Seq<char>>>,
    pub row_heights: Seq<Option<Seq<char>>>,
    pub default_column_width: Option<Seq<char>>,
    pub default_row_height: Option<Seq<char>>,
    pub pane: Option<FrozenPaneView>,
    pub merges: Seq<CellRange>,
}

/// The content of a list of optional texts.
pub open spec fn texts_view(texts: Seq<Option<String>>) -> Seq<Option<Seq<char>>> {
    texts.map_values(|text: Option<String>| text_view(text))
}

impl View for SheetMetadata {
    type V = SheetMetadataView;

    open spec fn view(&self) -> SheetMetadataView {
        SheetMetadataView {
            cell_styles: self.cell_styles@,
            column_widths: texts_view(self.column_widths@),
            row_heights: texts_view(self.row_heights@),
            default_column_width: text_view(self.default_column_width),
            default_row_height: text_view(self.default_row_height),
            pane: match self.pane {
                Some(pane) => Some(pane@),
                None => None,
            },
            merges: self.merges@,
        }
    }
}

/// A list of sizes with those from `first` up to `end` set, grown as far as that
/// takes.
pub open spec fn with_sizes(
    sizes: Seq<Option<Seq<char>>>,
    first: nat,
    end: nat,
    size: Seq<char>,
) -> Seq<Option<Seq<char>>> {
    if first >= end {
        sizes
    } else {
        Seq::new(
            if sizes.len() >= end {
                sizes.len()
            } else {
                end
            },
            |i: int|
                if first <= i < end {
                    Some(size)
                } else if i < sizes.len() {
                    sizes[i]
                } else {
                    None
                },
        )
    }
}

/// Sets the sizes from `first` up to `end`.
fn set_sizes(sizes: &mut Vec<Option<String>>, first: usize, end: usize, size: &String)
    ensures
        texts_view(final(sizes)@) == with_sizes(
            texts_view(old(sizes)@),
            first as nat,
            end as nat,
            size@,
        ),
{
    if first >= end {
        return;
    }
    let ghost before = texts_view(old(sizes)@);
    while sizes.len() < first
        invariant
            first < end,
            before.len() <= sizes@.len(),
            sizes@.len() <= first || sizes@.len() == before.len(),
            forall|i: int|
                0 <= i < sizes@.len() ==> #[trigger] text_view(sizes@[i]) == if i < before.len() {
                    before[i]
                } else {
                    None
                },
        decreases first - sizes@.len(),
    {
        sizes.push(None);
    }
    let mut index: usize = first;
    while index < end
        invariant
            first <= index <= end,
            before.len() <= sizes@.len(),
            index <= sizes@.len(),
            sizes@.len() == if before.len() >= index {
                before.len()
            } else {
                index as nat
            },
            forall|i: int|
                0 <= i < sizes@.len() ==> #[trigger] text_view(sizes@[i]) == if first <= i < index {
                    Some(size@)
                } else if i < before.len() {
                    before[i]
                } else {
                    None
                },
        decreases end - index,
    {
        if index < sizes.len() {
            sizes.set(index, Some(size.clone()));
        } else {
            sizes.push(Some(size.clone()));
        }
        index += 1;
    }
    assert(texts_view(sizes@) =~= with_sizes(before, first as nat, end as nat, size@));
}

/// The elements of a sheet that matter.
#[derive(Debug, Clone, Copy, PartialEq, Eq, Structural)]
pub enum SheetElement {
    Format,
    Pane,
    Column,
    Row,
    Cell,
    MergedCells,
    Other,
}

/// The element of the given name.
pub open spec fn sheet_element_named(name: Seq<char>) -> SheetElement {
    if name == "sheetFormatPr"@ {
        SheetElement::Format
    } else if name == "pane"@ {
        SheetElement::Pane
    } else if name == "col"@ {
        SheetElement::Column
    } else if name == "row"@ {
        SheetElement::Row
    } else if name == "c"@ {
        SheetElement::Cell
    } else if name == "mergeCell"@ {
        SheetElement::MergedCells
    } else {
        SheetElement::Other
    }
}

/// The element of the given name.
fn sheet_element(name: &str) -> (element: SheetElement)
    ensures
        element == sheet_element_named(name@),
{
    if same_text(name, "sheetFormatPr") {
        SheetElement::Format
    } else if same_text(name, "pane") {
        SheetElement::Pane
    } else if same_text(name, "col") {
        SheetElement::Column
    } else if same_text(name, "row") {
        SheetElement::Row
    } else if same_text(name, "c") {
        SheetElement::Cell
    } else if same_text(name, "mergeCell") {
        SheetElement::MergedCells
    } else {
        SheetElement::Other
    }
}

/// An index counted from zero for a number counted from one; zero stays zero.
pub open spec fn from_one_based(number: usize) -> nat {
    if number == 0 {
        0
    } else {
        (number - 1) as nat
    }
}

impl SheetMetadataView {
    /// What holds of a sheet that says nothing.
    pub open spec fn initial() -> Self {
        SheetMetadataView {
            cell_styles: Map::empty(),
            column_widths: Seq::empty(),
            row_heights: Seq::empty(),
            default_column_width: None,
            default_row_height: None,
            pane: None,
            merges: Seq::empty(),
        }
    }

    /// The default sizes as a format element gives them.
    pub open spec fn after_format(self, tag: XmlTagView) -> Result<Self, XlsxErrorView> {
        match (tag.float("defaultColWidth"@), tag.float("defaultRowHeight"@)) {
            (Err(error), _) => Err(error),
            (_, Err(error)) => Err(error),
            (Ok(width), Ok(height)) => Ok(
                SheetMetadataView {
                    default_column_width: if width is Some {
                        width
                    } else {
                        self.default_column_width
                    },
                    default_row_height: if height is Some {
                        height
                    } else {
                        self.default_row_height
                    },
                    ..self
                },
            ),
        }
    }

    /// The pane as a pane element gives it, if it is a frozen one.
    pub open spec fn after_pane(self, tag: XmlTagView) -> Result<Self, XlsxErrorView> {
        match tag.attribute("state"@) {
            Err(error) => Err(error),
            Ok(state) => if state != Some("frozen"@) {
                Ok(self)
            } else {
                match (tag.float("ySplit"@), tag.float("xSplit"@)) {
                    (Err(error), _) => Err(error),
                    (_, Err(error)) => Err(error),
                    (Ok(rows), Ok(columns)) => Ok(
                        SheetMetadataView {
                            pane: Some(FrozenPaneView { rows, columns }),
                            ..self
                        },
                    ),
                }
            },
        }
    }

    /// The widths of the columns that a column element spans.
    pub open spec fn after_column(self, tag: XmlTagView) -> Result<Self, XlsxErrorView> {
        match (tag.number("min"@), tag.number("max"@), tag.float("width"@)) {
            (Err(error), _, _) => Err(error),
            (_, Err(error), _) => Err(error),
            (_, _, Err(error)) => Err(error),
            (Ok(Some(min)), Ok(Some(max)), Ok(Some(width))) => Ok(
                SheetMetadataView {
                    column_widths: with_sizes(
                        self.column_widths,
                        from_one_based(min),
                        max as nat,
                        width,
                    ),
                    ..self
                },
            ),
            _ => Ok(self),
        }
    }

    /// The height of the row that a row element describes.
    pub open spec fn after_row(self, tag: XmlTagView) -> Result<Self, XlsxErrorView> {
        match (tag.number("r"@), tag.float("ht"@)) {
            (Err(error), _) => Err(error),
            (_, Err(error)) => Err(error),
            (Ok(Some(row)), Ok(Some(height))) => Ok(
                SheetMetadataView {
                    row_heights: with_sizes(
                        self.row_heights,
                        from_one_based(row),
                        from_one_based(row) + 1,
                        height,
                    ),
                    ..self
                },
            ),
            _ => Ok(self),
        }
    }

    /// The style of the cell that a cell element describes, if the style and the
    /// cell exist.
    pub open spec fn after_cell(self, tag: XmlTagView, styles: Seq<XlsxCellStyle>) -> Result<
        Self,
        XlsxErrorView,
    > {
        match (tag.attribute("r"@), tag.number("s"@)) {
            (Err(error), _) => Err(error),
            (_, Err(error)) => Err(error),
            (Ok(Some(reference)), Ok(Some(style))) => if style >= styles.len() {
                Ok(self)
            } else if !column_fits(reference) {
                Err(XlsxErrorView::ReferenceOverflow(reference))
            } else {
                match reference_indices(reference) {
                    Some((row, col)) => Ok(
                        SheetMetadataView {
                            cell_styles: self.cell_styles.insert(
                                CellCoord { row, col },
                                styles[style as int],
                            ),
                            ..self
                        },
                    ),
                    None => Ok(self),
                }
            },
            _ => Ok(self),
        }
    }

    /// One more merged range, if the element's reference denotes one.
    pub open spec fn after_merge(self, tag: XmlTagView) -> Result<Self, XlsxErrorView> {
        match tag.attribute("ref"@) {
            Err(error) => Err(error),
            Ok(None) => Ok(self),
            Ok(Some(reference)) => if !merge_ref_fits(reference) {
                Err(XlsxErrorView::ReferenceOverflow(reference))
            } else {
                match merged_range(reference) {
                    Some(range) => Ok(
                        SheetMetadataView { merges: self.merges.push(range), ..self },
                    ),
                    None => Ok(self),
                }
            },
        }
    }

    /// What is known behind a tag.
    pub open spec fn after_tag(self, tag: XmlTagView, styles: Seq<XlsxCellStyle>) -> Result<
        Self,
        XlsxErrorView,
    > {
        match sheet_element_named(tag.local_name) {
            SheetElement::Format => self.after_format(tag),
            SheetElement::Pane => self.after_pane(tag),
            SheetElement::Column => self.after_column(tag),
            SheetElement::Row => self.after_row(tag),
            SheetElement::Cell => self.after_cell(tag, styles),
            SheetElement::MergedCells => self.after_merge(tag),
            SheetElement::Other => Ok(self),
        }
    }

    /// What is known behind one event.
    pub open spec fn after_event(self, event: XmlEventView, styles: Seq<XlsxCellStyle>) -> Result<
        Self,
        XlsxErrorView,
    > {
        match event {
            XmlEventView::Start(tag) => self.after_tag(tag, styles),
            XmlEventView::Empty(tag) => self.after_tag(tag, styles),
            _ => Ok(self),
        }
    }

    /// What is known behind a list of events, or the first error on the way.
    pub open spec fn after_events(
        self,
        events: Seq<XmlEventView>,
        styles: Seq<XlsxCellStyle>,
    ) -> Result<Self, XlsxErrorView>
        decreases events.len(),
    {
        if events.len() == 0 {
            Ok(self)
        } else {
            match self.after_event(events[0], styles) {
                Err(error) => Err(error),
                Ok(next) => next.after_events(events.skip(1), styles),
            }
        }
    }
}

/// What a sheet's document says besides the sheet's values.
pub open spec fn document_metadata(document: XmlDocumentView, styles: Seq<XlsxCellStyle>) -> Result<
    SheetMetadataView,
    XlsxErrorView,
> {
    match SheetMetadataView::initial().after_events(document.events, styles) {
        Err(error) => Err(error),
        Ok(metadata) => match document.error {
            Some(message) => Err(XlsxErrorView::Xml(message)),
            None => Ok(metadata),
        },
    }
}

impl Default for SheetMetadata {
    fn default() -> (metadata: Self)
        ensures
            metadata@ == SheetMetadataView::initial(),
    {
        let metadata = SheetMetadata {
            cell_styles: CellStyles::new(),
            column_widths: Vec::new(),
            row_heights: Vec::new(),
            default_column_width: None,
            default_row_height: None,
            pane: None,
            merges: Vec::new(),
        };
        assert(metadata@ =~= SheetMetadataView::initial());
        metadata
    }
}

impl SheetMetadata {
    /// The style of a cell, plain where the sheet gives none.
    pub fn cell_style(&self, row: usize, col: usize) -> (style: XlsxCellStyle)
        ensures
            style == style_at(self@.cell_styles, CellCoord { row, col }),
    {
        self.cell_styles.get(row, col)
    }

    fn read_format(&mut self, tag: &XmlTag) -> (read: Result<(), XlsxError>)
        ensures
            step_result(read, final(self)@) == old(self)@.after_format(tag@),
    {
        let width = match attr_float(tag, "defaultColWidth") {
            Err(error) => {
                return Err(error);
            },
            Ok(width) => width,
        };
        let height = match attr_float(tag, "defaultRowHeight") {
            Err(error) => {
                return Err(error);
            },
            Ok(height) => height,
        };
        if width.is_some() {
            self.default_column_width = width;
        }
        if height.is_some() {
            self.default_row_height = height;
        }
        Ok(())
    }

    fn read_pane(&mut self, tag: &XmlTag) -> (read: Result<(), XlsxError>)
        ensures
            step_result(read, final(self)@) == old(self)@.after_pane(tag@),
    {
        match attr_string(tag, "state") {
            Err(error) => {
                return Err(error);
            },
            Ok(Some(state)) => {
                if !same_text(state.as_str(), "frozen") {
                    return Ok(());
                }
            },
            Ok(None) => {
                return Ok(());
            },
        }
        let rows = match attr_float(tag, "ySplit") {
            Err(error) => {
                return Err(error);
            },
            Ok(rows) => rows,
        };
        let columns = match attr_float(tag, "xSplit") {
            Err(error) => {
                return Err(error);
            },
            Ok(columns) => columns,
        };
        self.pane = Some(FrozenPane { rows, columns });
        Ok(())
    }

    fn read_column(&mut self, tag: &XmlTag) -> (read: Result<(), XlsxError>)
        ensures
            step_result(read, final(self)@) == old(self)@.after_column(tag@),
    {
        let min = match attr_usize(tag, "min") {
            Err(error) => {
                return Err(error);
            },
            Ok(min) => min,
        };
        let max = match attr_usize(tag, "max") {
            Err(error) => {
                return Err(error);
            },
            Ok(max) => max,
        };
        let width = match attr_float(tag, "width") {
            Err(error) => {
                return Err(error);
            },
            Ok(width) => width,
        };
        match (min, max, width) {
            (Some(min), Some(max), Some(width)) => {
                let first: usize = if min == 0 {
                    0
                } else {
                    min - 1
                };
                set_sizes(&mut self.column_widths, first, max, &width);
            },
            _ => {},
        }
        Ok(())
    }

    fn read_row(&mut self, tag: &XmlTag) -> (read: Result<(), XlsxError>)
        ensures
            step_result(read, final(self)@) == old(self)@.after_row(tag@),
    {
        let row = match attr_usize(tag, "r") {
            Err(error) => {
                return Err(error);
            },
            Ok(row) => row,
        };
        let height = match attr_float(tag, "ht") {
            Err(error) => {
                return Err(error);
            },
            Ok(height) => height,
        };
        match (row, height) {
            (Some(row), Some(height)) => {
                let index: usize = if row == 0 {
                    0
                } else {
                    row - 1
                };
                set_sizes(&mut self.row_heights, index, index + 1, &height);
            },
            _ => {},
        }
        Ok(())
    }

    fn read_cell(&mut self, tag: &XmlTag, styles: &Vec<XlsxCellStyle>) -> (read: Result<
        (),
        XlsxError,
    >)
        ensures
            step_result(read, final(self)@) == old(self)@.after_cell(tag@, styles@),
    {
        let reference = match attr_string(tag, "r") {
            Err(error) => {
                return Err(error);
            },
            Ok(reference) => reference,
        };
        let style = match attr_usize(tag, "s") {
            Err(error) => {
                return Err(error);
            },
            Ok(style) => style,
        };
        match (reference, style) {
            (Some(reference), Some(style)) => {
                if style < styles.len() {
                    match checked_cell_ref(reference.as_str()) {
                        None => {
                            return Err(XlsxError::ReferenceOverflow(reference));
                        },
                        Some(None) => {},
                        Some(Some((row, col))) => {
                            self.cell_styles.insert(CellCoord { row, col }, styles[style]);
                        },
                    }
                }
            },
            _ => {},
        }
        Ok(())
    }

    fn read_merge(&mut self, tag: &XmlTag) -> (read: Result<(), XlsxError>)
        ensures
            step_result(read, final(self)@) == old(self)@.after_merge(tag@),
    {
        match attr_string(tag, "ref") {
            Err(error) => {
                return Err(error);
            },
            Ok(None) => {},
            Ok(Some(reference)) => match checked_merge_ref(reference.as_str()) {
                None => {
                    return Err(XlsxError::ReferenceOverflow(reference));
                },
                Some(None) => {},
                Some(Some(range)) => {
                    self.merges.push(range);
                },
            },
        }
        Ok(())
    }

    /// Takes one event in.
    pub fn read_event(&mut self, event: &XmlEvent, styles: &Vec<XlsxCellStyle>) -> (read: Result<
        (),
        XlsxError,
    >)
        ensures
            step_result(read, final(self)@) == old(self)@.after_event(event@, styles@),
    {
        let tag = match event {
            XmlEvent::Start(tag) => tag,
            XmlEvent::Empty(tag) => tag,
            _ => {
                return Ok(());
            },
        };
        match sheet_element(tag.local_name.as_str()) {
            SheetElement::Format => self.read_format(tag),
            SheetElement::Pane => self.read_pane(tag),
            SheetElement::Column => self.read_column(tag),
            SheetElement::Row => self.read_row(tag),
            SheetElement::Cell => self.read_cell(tag, styles),
            SheetElement::MergedCells => self.read_merge(tag),
            SheetElement::Other => Ok(()),
        }
    }
}

/// Gathers what a sheet's document says besides the sheet's values.
pub fn metadata_of_document(document: &XmlDocument, styles: &Vec<XlsxCellStyle>) -> (metadata:
    Result<SheetMetadata, XlsxError>)
    ensures
        viewed_result(metadata) == document_metadata(document@, styles@),
{
    let mut metadata = SheetMetadata::default();
    let ghost events = document@.events;
    assert(events.skip(0) == events);
    let mut index: usize = 0;
    while index < document.events.len()
        invariant
            index <= document.events@.len(),
            events == document@.events,
            SheetMetadataView::initial().after_events(events, styles@) == metadata@.after_events(
                events.skip(index as int),
                styles@,
            ),
        decreases document.events@.len() - index,
    {
        assert(events.skip(index as int)[0] == document.events@[index as int]@);
        assert(events.skip(index as int).skip(1) == events.skip(index + 1));
        match metadata.read_event(&document.events[index], styles) {
            Err(error) => {
                return Err(error);
            },
            Ok(()) => {},
        }
        index += 1;
    }
    match &document.error {
        Some(message) => Err(XlsxError::Xml(message.clone())),
        None => Ok(metadata),
    }
}

/// Reads what a sheet's XML text says besides the sheet's values.
pub fn read_sheet_metadata(sheet_xml: &str, styles: &Vec<XlsxCellStyle>) -> (metadata: Result<
    SheetMetadata,
    XlsxError,
>)
    ensures
        viewed_result(metadata) == document_metadata(document_of(xml_items(sheet_xml@)), styles@),
{
    metadata_of_document(&read_document(sheet_xml), styles)
}


/// A column tag gives its width to the columns from its first to its last, both counted from
/// one, and to no other.
pub proof fn widths_are_given_to_the_columns_named(
    metadata: SheetMetadataView,
    tag: XmlTagView,
    min: usize,
    max: usize,
    width: Seq<char>,
    col: int,
)
    requires
        tag.number("min"@) == Ok::<Option<usize>, XlsxErrorView>(Some(min)),
        tag.number("max"@) == Ok::<Option<usize>, XlsxErrorView>(Some(max)),
        tag.float("width"@) == Ok::<Option<Seq<char>>, XlsxErrorView>(Some(width)),
        1 <= min <= max,
        1 <= col,
    ensures
        ({
            let after = metadata.after_column(tag)->Ok_0;
            let before = metadata.column_widths;
            &&& metadata.after_column(tag) is Ok
            &&& min <= col <= max ==> col - 1 < after.column_widths.len()
                && after.column_widths[col - 1] == Some(width)
            &&& (col < min || max < col) && col - 1 < before.len() ==> after.column_widths[col - 1]
                == before[col - 1]
            &&& (col < min || max < col) && before.len() <= col - 1 < after.column_widths.len()
                ==> after.column_widths[col - 1] is None
            &&& after == (SheetMetadataView { column_widths: after.column_widths, ..metadata })
        }),
{
}

/// A row tag gives its height to its own row, counted from one, and to no other.
pub proof fn heights_are_given_to_the_rows_named(
    metadata: SheetMetadataView,
    tag: XmlTagView,
    number: usize,
    height: Seq<char>,
    row: int,
)
    requires
        tag.number("r"@) == Ok::<Option<usize>, XlsxErrorView>(Some(number)),
        tag.float("ht"@) == Ok::<Option<Seq<char>>, XlsxErrorView>(Some(height)),
        1 <= number,
        1 <= row,
    ensures
        ({
            let after = metadata.after_row(tag)->Ok_0;
            let before = metadata.row_heights;
            &&& metadata.after_row(tag) is Ok
            &&& number - 1 < after.row_heights.len()
            &&& after.row_heights[number - 1] == Some(height)
            &&& row != number && row - 1 < before.len() ==> after.row_heights[row - 1]
                == before[row - 1]
            &&& row != number && before.len() <= row - 1 < after.row_heights.len()
                ==> after.row_heights[row - 1] is None
            &&& after == (SheetMetadataView { row_heights: after.row_heights, ..metadata })
        }),
{
}

/// A cell tag gives the style with its number to the cell that its label names, and to no
/// other.
pub proof fn styles_are_given_to_the_cells_named(
    metadata: SheetMetadataView,
    tag: XmlTagView,
    styles: Seq<XlsxCellStyle>,
    coord: CellCoord,
    style: usize,
    other: CellCoord,
)
    requires
        coord.row < usize::MAX,
        coord.col < usize::MAX,
        tag.attribute("r"@) == Ok::<Option<Seq<char>>, XlsxErrorView>(
            Some(cell_label_spec(coord.row as nat, coord.col as nat)),
        ),
        tag.number("s"@) == Ok::<Option<usize>, XlsxErrorView>(Some(style)),
        other != coord,
    ensures
        metadata.after_cell(tag, styles) is Ok,
        ({
            let after = metadata.after_cell(tag, styles)->Ok_0;
            &&& style < styles.len() ==> style_at(after.cell_styles, coord) == styles[style as int]
            &&& style >= styles.len() ==> after == metadata
            &&& style_at(after.cell_styles, other) == style_at(metadata.cell_styles, other)
            &&& after.column_widths == metadata.column_widths
            &&& after.row_heights == metadata.row_heights
            &&& after.merges == metadata.merges
            &&& after.pane == metadata.pane
        }),
{
    label_refers_to_its_cell(coord.row, coord.col);
}

/// A tag for merged cells adds the rectangle that its two labels name, behind those before.
pub proof fn merged_cells_are_added(
    metadata: SheetMetadataView,
    tag: XmlTagView,
    start: CellCoord,
    end: CellCoord,
)
    requires
        start.row < usize::MAX,
        start.col < usize::MAX,
        end.row < usize::MAX,
        end.col < usize::MAX,
        tag.attribute("ref"@) == Ok::<Option<Seq<char>>, XlsxErrorView>(
            Some(
                cell_label_spec(start.row as nat, start.col as nat).push(':') + cell_label_spec(
                    end.row as nat,
                    end.col as nat,
                ),
            ),
        ),
    ensures
        metadata.after_merge(tag) is Ok,
        metadata.after_merge(tag)->Ok_0.merges == metadata.merges.push(CellRange { start, end }),
        metadata.after_merge(tag)->Ok_0.cell_styles == metadata.cell_styles,
{
    labels_name_a_merged_range(start, end);
}

/// A pane counts only where it is frozen; then it keeps its counts of rows and of columns
/// apart.
pub proof fn only_frozen_panes_count(metadata: SheetMetadataView, tag: XmlTagView)
    requires
        tag.attribute("state"@) is Ok,
        tag.float("ySplit"@) is Ok,
        tag.float("xSplit"@) is Ok,
    ensures
        metadata.after_pane(tag) is Ok,
        tag.attribute("state"@)->Ok_0 != Some(seq!['f', 'r', 'o', 'z', 'e', 'n'])
            ==> metadata.after_pane(tag)->Ok_0 == metadata,
        tag.attribute("state"@)->Ok_0 == Some(seq!['f', 'r', 'o', 'z', 'e', 'n'])
            ==> metadata.after_pane(tag)->Ok_0.pane is Some && metadata.after_pane(
            tag,
        )->Ok_0.pane->0.rows == tag.float("ySplit"@)->Ok_0 && metadata.after_pane(
            tag,
        )->Ok_0.pane->0.columns == tag.float("xSplit"@)->Ok_0,
{
    reveal_strlit("frozen");
    assert("frozen"@ =~= seq!['f', 'r', 'o', 'z', 'e', 'n']);
}

/// A default extent stays in force until another one is given.
pub proof fn default_extents_stay_until_given(metadata: SheetMetadataView, tag: XmlTagView)
    requires
        tag.float("defaultColWidth"@) is Ok,
        tag.float("defaultRowHeight"@) is Ok,
    ensures
        metadata.after_format(tag) is Ok,
        tag.float("defaultColWidth"@)->Ok_0 is Some ==> metadata.after_format(
            tag,
        )->Ok_0.default_column_width == tag.float("defaultColWidth"@)->Ok_0,
        tag.float("defaultColWidth"@)->Ok_0 is None ==> metadata.after_format(
            tag,
        )->Ok_0.default_column_width == metadata.default_column_width,
        tag.float("defaultRowHeight"@)->Ok_0 is Some ==> metadata.after_format(
            tag,
        )->Ok_0.default_row_height == tag.float("defaultRowHeight"@)->Ok_0,
        tag.float("defaultRowHeight"@)->Ok_0 is None ==> metadata.after_format(
            tag,
        )->Ok_0.default_row_height == metadata.default_row_height,
{
}

/// Each element of a sheet is told by its name, and one with any other name changes nothing. An
/// element counts the same with content and without.
pub proof fn sheet_elements_are_told_by_their_names(
    metadata: SheetMetadataView,
    tag: XmlTagView,
    styles: Seq<XlsxCellStyle>,
)
    ensures
        tag.local_name == "sheetFormatPr"@ ==> metadata.after_tag(tag, styles) == metadata.after_format(tag),
        tag.local_name == "pane"@ ==> metadata.after_tag(tag, styles) == metadata.after_pane(tag),
        tag.local_name == "col"@ ==> metadata.after_tag(tag, styles) == metadata.after_column(tag),
        tag.local_name == "row"@ ==> metadata.after_tag(tag, styles) == metadata.after_row(tag),
        tag.local_name == "mergeCell"@ ==> metadata.after_tag(tag, styles) == metadata.after_merge(tag),
        tag.local_name == "c"@ ==> metadata.after_tag(tag, styles) == metadata.after_cell(tag, styles),
        tag.local_name != "sheetFormatPr"@ && tag.local_name != "pane"@ && tag.local_name
            != "col"@ && tag.local_name != "row"@ && tag.local_name != "c"@ && tag.local_name
            != "mergeCell"@ ==> metadata.after_tag(tag, styles) == Ok::<
            SheetMetadataView,
            XlsxErrorView,
        >(metadata),
        metadata.after_event(XmlEventView::Start(tag), styles) == metadata.after_tag(tag, styles),
        metadata.after_event(XmlEventView::Empty(tag), styles) == metadata.after_tag(tag, styles),
        metadata.after_event(XmlEventView::End(tag.local_name), styles) == Ok::<
            SheetMetadataView,
            XlsxErrorView,
        >(metadata),
{
    reveal_strlit("sheetFormatPr");
    reveal_strlit("pane");
    reveal_strlit("col");
    reveal_strlit("row");
    reveal_strlit("mergeCell");
    reveal_strlit("c");
    assert("sheetFormatPr"@.len() == 13 && "sheetFormatPr"@[0] == 's');
    assert("pane"@.len() == 4 && "pane"@[0] == 'p');
    assert("col"@.len() == 3 && "col"@[0] == 'c');
    assert("row"@.len() == 3 && "row"@[0] == 'r');
    assert("mergeCell"@.len() == 9 && "mergeCell"@[0] == 'm');
    assert("c"@.len() == 1 && "c"@[0] == 'c');
}

/// The events of a sheet are taken in one after the other: those in front never depend on those
/// behind.
pub proof fn sheet_events_are_taken_in_turn(
    metadata: SheetMetadataView,
    first: Seq<XmlEventView>,
    second: Seq<XmlEventView>,
    styles: Seq<XlsxCellStyle>,
)
    ensures
        metadata.after_events(first, styles) is Err ==> metadata.after_events(
            first + second,
            styles,
        ) == metadata.after_events(first, styles),
        metadata.after_events(first, styles) matches Ok(next) ==> metadata.after_events(
            first + second,
            styles,
        ) == next.after_events(second, styles),
    decreases first.len(),
{
    if first.len() == 0 {
        assert(first + second =~= second);
    } else {
        assert((first + second).skip(1) =~= first.skip(1) + second);
        assert((first + second)[0] == first[0]);
        match metadata.after_event(first[0], styles) {
            Err(_) => {},
            Ok(next) => {
                sheet_events_are_taken_in_turn(next, first.skip(1), second, styles);
            },
        }
    }
}

} // verus!
