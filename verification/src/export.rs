//! Sheets in other formats: tab-separated text, HTML, XML and cell listings.

use vstd::prelude::*;
use vstd::utf8::{encode_utf8, is_ascii_chars};

use crate::attributes::{alpha_is_separable, argb_color, color_digits};
use crate::cell::{CellData, CellView};
use crate::errors::XlsxErrorView;
use crate::escape::{
    append_clipboard_cell, append_html_text, append_xml_attr, append_xml_text, clipboard_text,
    escaped_text_stays_in_place, escaped_xml_attr, escaped_xml_text,
    escaping_is_undone_by_reading, html_text, unescaped,
};
use crate::lines::pieces;
use crate::numbers::{
    all_digits, decimal, digits_denote_their_number, digits_of, digits_value, is_digit_of,
    padded_hex_text, padding_keeps_the_number, push_decimal, without_plus, zero_padded,
};
use crate::pixels::Pixels;
use crate::range::CellRange;
use crate::references::{
    column_letters, column_name, column_name_spells_its_number, column_number,
};
use crate::sheet::{SheetData, SheetView};
use crate::text::{
    ascii_lowered, begins_with, first_index, lemma_first_index_is, lower_text,
    lowering_changes_capitals_only, text_from, to_chars,
};
use crate::xml::XmlTagView;

verus! {

/// Texts one behind the other, with a separator between them.
pub open spec fn joined(parts: Seq<Seq<char>>, separator: Seq<char>) -> Seq<char>
    decreases parts.len(),
{
    if parts.len() == 0 {
        Seq::empty()
    } else if parts.len() == 1 {
        parts[0]
    } else {
        joined(parts.drop_last(), separator) + separator + parts.last()
    }
}

/// Texts one behind the other.
pub open spec fn concatenated(parts: Seq<Seq<char>>) -> Seq<char>
    decreases parts.len(),
{
    if parts.len() == 0 {
        Seq::empty()
    } else {
        concatenated(parts.drop_last()) + parts.last()
    }
}

/// One row of a range, its cells separated by tabs.
pub open spec fn tsv_row(sheet: SheetView, range: CellRange, row: int) -> Seq<char> {
    joined(
        Seq::new(
            range.width(),
            |i: int| clipboard_text(sheet.cell(row, range.left_col() + i).value),
        ),
        seq!['\t'],
    )
}

/// The rows of a range, separated by line breaks.
pub open spec fn tsv(sheet: SheetView, range: CellRange) -> Seq<char> {
    joined(
        Seq::new(range.height(), |i: int| tsv_row(sheet, range, range.top_row() + i)),
        seq!['\n'],
    )
}

/// The six hexadecimal digits of a color.
pub open spec fn color_digits_text(color: u32) -> Seq<char> {
    zero_padded(digits_of(color as nat, 16), 6)
}

/// The color of text for which none is given.
pub const DEFAULT_TEXT_COLOR: u32 = 0x20_21_24;

/// The color of a background for which none is given.
pub const DEFAULT_BACKGROUND_COLOR: u32 = 0xff_ff_ff;

/// A color or its default.
pub open spec fn color_or(color: Option<u32>, other: u32) -> u32 {
    match color {
        Some(color) => color,
        None => other,
    }
}

/// The six hexadecimal digits of a color.
pub fn color_hex(color: u32) -> (text: String)
    ensures
        text@ == color_digits_text(color),
{
    padded_hex_text(color, 6)
}

/// The six hexadecimal digits of a color in a style sheet.
pub fn css_color(color: u32) -> (text: String)
    ensures
        text@ == color_digits_text(color),
{
    padded_hex_text(color, 6)
}

/// Leading zeros do not change what digits denote.
proof fn lemma_zeros_in_front(zeros: nat, digits: Seq<char>)
    requires
        all_digits(digits, 16),
    ensures
        digits_value(Seq::new(zeros, |i: int| '0') + digits, 16) == digits_value(digits, 16),
        all_digits(Seq::new(zeros, |i: int| '0') + digits, 16),
    decreases zeros + digits.len(),
{
    let padding = Seq::new(zeros, |i: int| '0');
    let whole = padding + digits;
    if digits.len() > 0 {
        lemma_zeros_in_front(zeros, digits.drop_last());
        assert(whole.drop_last() == padding + digits.drop_last());
    } else if zeros > 0 {
        lemma_zeros_in_front((zeros - 1) as nat, digits);
        assert(whole.drop_last() == Seq::new((zeros - 1) as nat, |i: int| '0') + digits);
    } else {
        assert(whole == digits);
    }
}

/// A number below a power of sixteen has no more digits than the power says.
proof fn lemma_digit_count(number: nat, bound: nat, count: nat)
    requires
        count > 0,
        bound == vstd::arithmetic::power::pow(16, count),
        number < bound,
    ensures
        digits_of(number, 16).len() <= count,
    decreases count,
{
    vstd::arithmetic::power::lemma_pow_positive(16, count);
    if number >= 16 {
        if count == 1 {
            vstd::arithmetic::power::lemma_pow1(16);
        }
        let fewer = (count - 1) as nat;
        vstd::arithmetic::power::lemma_pow_positive(16, fewer);
        reveal(vstd::arithmetic::power::pow);
        let smaller = vstd::arithmetic::power::pow(16, fewer) as nat;
        assert(bound == 16 * smaller);
        assert(number / 16 < smaller);
        lemma_digit_count(number / 16, smaller, fewer);
    }
}

/// A color that was written in six digits reads back, also behind two characters for the
/// alpha channel, whatever they are.
pub proof fn written_colors_read_back(color: u32, alpha: Seq<char>)
    requires
        color <= 0xff_ff_ff,
        alpha.len() == 2,
        is_ascii_chars(alpha),
    ensures
        alpha_is_separable(color_digits_text(color)),
        argb_color(color_digits_text(color)) == Some(color),
        alpha_is_separable(alpha + color_digits_text(color)),
        argb_color(alpha + color_digits_text(color)) == Some(color),
{
    let digits = digits_of(color as nat, 16);
    let text = color_digits_text(color);
    digits_denote_their_number(color as nat, 16);
    assert(vstd::arithmetic::power::pow(16, 6) == 0x1000000) by {
        reveal_with_fuel(vstd::arithmetic::power::pow, 7);
    }
    lemma_digit_count(color as nat, 0x1000000, 6);
    lemma_zeros_in_front((6 - digits.len()) as nat, digits);
    assert(Seq::new(0, |i: int| '0') + digits == digits);
    assert(text.len() == 6);
    assert(all_digits(text, 16) && digits_value(text, 16) == color);
    assert(is_digit_of(text[0], 16));
    assert(without_plus(text) == text);
    assert(is_ascii_chars(text)) by {
        assert forall|i: int| 0 <= i < text.len() implies '\0' <= #[trigger] text[i] <= '\u{7f}' by {
            assert(is_digit_of(text[i], 16));
        }
    }
    vstd::utf8::is_ascii_chars_encode_utf8(text);
    let whole = alpha + text;
    assert(is_ascii_chars(whole));
    vstd::utf8::is_ascii_chars_encode_utf8(whole);
    let bytes = encode_utf8(whole);
    assert(bytes.subrange(2, 8) =~= encode_utf8(text)) by {
        assert forall|i: int| 0 <= i < 6 implies bytes.subrange(2, 8)[i] == encode_utf8(text)[i] by {
            assert(whole[i + 2] == text[i]);
        }
    }
    vstd::utf8::encode_utf8_decode_utf8(text);
    assert(color_digits(whole) == text);
    vstd::utf8::encode_utf8_valid_utf8(whole);
    vstd::utf8::is_char_boundary_iff_not_is_continuation_byte(bytes, 2);
    assert(bytes[2] == whole[2] as u8);
    assert(whole[2] == text[0]);
}

/// The style of a cell in a copied table.
pub open spec fn html_cell_style(cell: CellView, width: Seq<char>, height: Seq<char>) -> Seq<
    char,
> {
    "border:1px solid #d9d9d9;padding:2px 8px;min-width:"@ + width + "px;width:"@ + width
        + "px;height:"@ + height + "px;color:#"@ + color_digits_text(
        color_or(cell.style.text_color, DEFAULT_TEXT_COLOR),
    ) + ";background-color:#"@ + color_digits_text(
        color_or(cell.style.background_color, DEFAULT_BACKGROUND_COLOR),
    ) + ";font-weight:"@ + (if cell.style.bold {
        "bold"@
    } else {
        "normal"@
    }) + ";font-family:Arial,sans-serif;font-size:13px;white-space:pre-wrap;"@
}

/// Writes the style of a cell in a copied table, given the texts of the cell's
/// width and height.
pub fn clipboard_html_cell_style(cell: &CellData, width: &str, height: &str) -> (style: String)
    ensures
        style@ == html_cell_style(cell@, width@, height@),
{
    let mut style = "border:1px solid #d9d9d9;padding:2px 8px;min-width:".to_owned();
    style.push_str(width);
    style.push_str("px;width:");
    style.push_str(width);
    style.push_str("px;height:");
    style.push_str(height);
    style.push_str("px;color:#");
    let text_color: u32 = match cell.style.text_color {
        Some(color) => color,
        None => DEFAULT_TEXT_COLOR,
    };
    style.push_str(css_color(text_color).as_str());
    style.push_str(";background-color:#");
    let background: u32 = match cell.style.background_color {
        Some(color) => color,
        None => DEFAULT_BACKGROUND_COLOR,
    };
    style.push_str(css_color(background).as_str());
    style.push_str(";font-weight:");
    if cell.style.bold {
        style.push_str("bold");
    } else {
        style.push_str("normal");
    }
    style.push_str(";font-family:Arial,sans-serif;font-size:13px;white-space:pre-wrap;");
    style
}

/// One cell of a copied table.
pub open spec fn html_cell(cell: CellView, width: Seq<char>, height: Seq<char>) -> Seq<char> {
    "<td style=\""@ + html_cell_style(cell, width, height) + "\">"@ + html_text(cell.value)
        + "</td>"@
}

/// One row of a copied table.
pub open spec fn html_row(
    sheet: SheetView,
    range: CellRange,
    row: int,
    widths: Seq<Seq<char>>,
    height: Seq<char>,
) -> Seq<char> {
    "<tr style=\"height:"@ + height + "px;\">"@ + concatenated(
        Seq::new(
            range.width(),
            |i: int| html_cell(sheet.cell(row, range.left_col() + i), widths[i], height),
        ),
    ) + "</tr>"@
}

/// A copied table.
pub open spec fn html(
    sheet: SheetView,
    range: CellRange,
    widths: Seq<Seq<char>>,
    heights: Seq<Seq<char>>,
) -> Seq<char> {
    "<html><head><meta charset=\"utf-8\"></head><body><table cellspacing=\"0\" cellpadding=\"0\" style=\"border-collapse:collapse;\">"@
        + concatenated(
        Seq::new(
            range.height(),
            |i: int| html_row(sheet, range, range.top_row() + i, widths, heights[i]),
        ),
    ) + "</table></body></html>"@
}

/// The content of a list of texts.
pub open spec fn strings_view(texts: Seq<String>) -> Seq<Seq<char>> {
    texts.map_values(|text: String| text@)
}

/// A formula without one leading equals sign.
pub open spec fn without_equals(formula: Seq<char>) -> Seq<char> {
    if formula.len() > 0 && formula[0] == '=' {
        formula.skip(1)
    } else {
        formula
    }
}

/// One cell of a sheet in XML: an element named by the column.
pub open spec fn xml_cell(cell: CellView, col: int) -> Seq<char> {
    let tag = ascii_lowered(column_letters(col as nat));
    let formula = match cell.active_formula() {
        Some(formula) => " formula=\""@ + escaped_xml_attr(without_equals(formula)) + seq!['"'],
        None => Seq::empty(),
    };
    "    <"@ + tag + formula + seq!['>'] + escaped_xml_text(cell.value) + "</"@ + tag + ">\n"@
}

/// One row of a sheet in XML.
pub open spec fn xml_row(sheet: SheetView, row: int) -> Seq<char> {
    let tag = "row_"@ + decimal((row + 1) as nat);
    "  <"@ + tag + ">\n"@ + concatenated(
        Seq::new(sheet.col_count, |col: int| xml_cell(sheet.cell(row, col), col)),
    ) + "  </"@ + tag + ">\n"@
}

/// A sheet in XML.
pub open spec fn pretty_xml(sheet: SheetView) -> Seq<char> {
    "<sheet name=\""@ + escaped_xml_attr(sheet.name) + "\">\n"@ + concatenated(
        Seq::new(sheet.row_count, |row: int| xml_row(sheet, row)),
    ) + "</sheet>"@
}

/// One cell of a listing.
pub struct InspectedCell {
    /// The name of the cell's column.
    pub x: String,
    /// The number of the cell's row.
    pub y: usize,
    pub display_value: String,
    /// The six hexadecimal digits of the text color.
    pub fg: String,
    /// The six hexadecimal digits of the background color.
    pub bg: String,
    pub bold: bool,
    pub width: Pixels,
    pub height: Pixels,
}

/// The mathematical content of an [`InspectedCell`].
#[verifier::ext_equal]
pub struct InspectedCellView {
    pub x: Seq<char>,
    pub y: nat,
    pub display_value: Seq<char>,
    pub fg: Seq<char>,
    pub bg: Seq<char>,
    pub bold: bool,
    pub width: Pixels,
    pub height: Pixels,
}

impl View for InspectedCell {
    type V = InspectedCellView;

    open spec fn view(&self) -> InspectedCellView {
        InspectedCellView {
            x: self.x@,
            y: self.y as nat,
            display_value: self.display_value@,
            fg: self.fg@,
            bg: self.bg@,
            bold: self.bold,
            width: self.width,
            height: self.height,
        }
    }
}

/// A listing of a sheet's cells.
pub struct InspectedSheet {
    pub sheet: String,
    pub rows: usize,
    pub cols: usize,
    pub cells: Vec<InspectedCell>,
}

/// What a listing says of a cell.
pub open spec fn inspected_cell(sheet: SheetView, row: int, col: int) -> InspectedCellView {
    let cell = sheet.cell(row, col);
    InspectedCellView {
        x: column_letters(col as nat),
        y: (row + 1) as nat,
        display_value: cell.value,
        fg: color_digits_text(color_or(cell.style.text_color, DEFAULT_TEXT_COLOR)),
        bg: color_digits_text(color_or(cell.style.background_color, DEFAULT_BACKGROUND_COLOR)),
        bold: cell.style.bold,
        width: sheet.column_width(col),
        height: sheet.row_height(row),
    }
}

/// A listing of the cells of the first rows, row by row.
pub open spec fn inspected_rows(sheet: SheetView, rows: nat) -> Seq<InspectedCellView>
    decreases rows,
{
    if rows == 0 {
        Seq::empty()
    } else {
        inspected_rows(sheet, (rows - 1) as nat) + Seq::new(
            sheet.col_count,
            |col: int| inspected_cell(sheet, rows - 1, col),
        )
    }
}

/// The content of a list of cells of a listing.
pub open spec fn inspected_view(cells: Seq<InspectedCell>) -> Seq<InspectedCellView> {
    cells.map_values(|cell: InspectedCell| cell@)
}

/// The numbers of the first `cols` cells of a row of a range.
pub open spec fn row_numbers(sheet: SheetView, row: int, first: int, cols: nat) -> Seq<u64>
    decreases cols,
{
    if cols == 0 {
        Seq::empty()
    } else {
        let earlier = row_numbers(sheet, row, first, (cols - 1) as nat);
        match sheet.number(row, first + cols - 1) {
            Some(bits) => earlier.push(bits),
            None => earlier,
        }
    }
}

/// The numbers of the first `rows` rows of a range, row by row.
pub open spec fn range_numbers(sheet: SheetView, range: CellRange, rows: nat) -> Seq<u64>
    decreases rows,
{
    if rows == 0 {
        Seq::empty()
    } else {
        range_numbers(sheet, range, (rows - 1) as nat) + row_numbers(
            sheet,
            range.top_row() + rows - 1,
            range.left_col() as int,
            range.width(),
        )
    }
}

/// What is known of a selected range before its numbers are added up.
pub struct SelectionSummary {
    pub selected_cells: usize,
    /// The numbers in the range, row by row, by their bit patterns.
    pub numbers: Vec<u64>,
}

impl SheetData {
    /// Counts the cells of a range and gathers its numbers.
    pub fn summary_for_range(&self, range: CellRange) -> (summary: SelectionSummary)
        requires
            range.area() <= usize::MAX,
        ensures
            summary.selected_cells == range.area(),
            summary.numbers@ == range_numbers(self@, range, range.height()),
    {
        let selected_cells: usize = range.cell_count();
        let bounds = range.normalized();
        let mut numbers: Vec<u64> = Vec::new();
        let mut row: usize = bounds.start.row;
        loop
            invariant_except_break
                numbers@ == range_numbers(self@, range, (row - bounds.start.row) as nat),
            invariant
                bounds == range.ordered(),
                bounds.start.row <= row <= bounds.end.row,
            ensures
                numbers@ == range_numbers(self@, range, range.height()),
            decreases bounds.end.row - row,
        {
            let ghost before = numbers@;
            let mut col: usize = bounds.start.col;
            loop
                invariant_except_break
                    numbers@ == before + row_numbers(
                        self@,
                        row as int,
                        bounds.start.col as int,
                        (col - bounds.start.col) as nat,
                    ),
                invariant
                    bounds == range.ordered(),
                    bounds.start.col <= col <= bounds.end.col,
                ensures
                    numbers@ == before + row_numbers(
                        self@,
                        row as int,
                        bounds.start.col as int,
                        range.width(),
                    ),
                decreases bounds.end.col - col,
            {
                if let Some(bits) = self.numeric_value(row, col) {
                    numbers.push(bits);
                }
                if col == bounds.end.col {
                    break;
                }
                col += 1;
            }
            if row == bounds.end.row {
                break;
            }
            row += 1;
        }
        SelectionSummary { selected_cells, numbers }
    }

    /// Appends one row of a range, its cells separated by tabs.
    fn append_tsv_row(&self, output: &mut String, range: CellRange, row: usize)
        ensures
            final(output)@ == old(output)@ + tsv_row(self@, range, row as int),
    {
        let bounds = range.normalized();
        let ghost before = output@;
        let ghost cells = Seq::new(
            range.width(),
            |i: int| clipboard_text(self@.cell(row as int, range.left_col() + i).value),
        );
        let mut col: usize = bounds.start.col;
        assert(cells.take(0) == Seq::<Seq<char>>::empty());
        loop
            invariant_except_break
                output@ == before + joined(cells.take(col - bounds.start.col), seq!['\t']),
            invariant
                bounds == range.ordered(),
                bounds.start.col <= col <= bounds.end.col,
                cells == Seq::new(
                    range.width(),
                    |i: int| clipboard_text(self@.cell(row as int, range.left_col() + i).value),
                ),
            ensures
                output@ == before + joined(cells, seq!['\t']),
            decreases bounds.end.col - col,
        {
            let ghost index = col - bounds.start.col;
            proof {
                assert(cells.take(index + 1).drop_last() == cells.take(index));
                assert(cells.take(index + 1).last() == cells[index]);
            }
            if col > bounds.start.col {
                output.push('\t');
            }
            let text = self.cell(row, col);
            append_clipboard_cell(output, text.as_str());
            assert(output@ =~= before + joined(cells.take(index + 1), seq!['\t']));
            if col == bounds.end.col {
                assert(cells.take(index + 1) == cells);
                break;
            }
            col += 1;
        }
    }

    /// The displayed texts of a range, cells separated by tabs and rows by line
    /// breaks.
    pub fn range_to_tsv(&self, range: CellRange) -> (text: String)
        ensures
            text@ == tsv(self@, range),
    {
        let bounds = range.normalized();
        let ghost rows = Seq::new(
            range.height(),
            |i: int| tsv_row(self@, range, range.top_row() + i),
        );
        let mut output = String::new();
        let mut row: usize = bounds.start.row;
        assert(rows.take(0) == Seq::<Seq<char>>::empty());
        loop
            invariant_except_break
                output@ == joined(rows.take(row - bounds.start.row), seq!['\n']),
            invariant
                bounds == range.ordered(),
                bounds.start.row <= row <= bounds.end.row,
                rows == Seq::new(
                    range.height(),
                    |i: int| tsv_row(self@, range, range.top_row() + i),
                ),
            ensures
                output@ == joined(rows, seq!['\n']),
            decreases bounds.end.row - row,
        {
            let ghost index = row - bounds.start.row;
            proof {
                assert(rows.take(index + 1).drop_last() == rows.take(index));
                assert(rows.take(index + 1).last() == rows[index]);
            }
            if row > bounds.start.row {
                output.push('\n');
            }
            self.append_tsv_row(&mut output, range, row);
            assert(output@ =~= joined(rows.take(index + 1), seq!['\n']));
            if row == bounds.end.row {
                assert(rows.take(index + 1) == rows);
                break;
            }
            row += 1;
        }
        output
    }

    /// Appends one row of a copied table.
    fn append_html_row(
        &self,
        output: &mut String,
        range: CellRange,
        row: usize,
        widths: &Vec<String>,
        height: &str,
    )
        requires
            widths@.len() == range.width(),
        ensures
            final(output)@ == old(output)@ + html_row(
                self@,
                range,
                row as int,
                strings_view(widths@),
                height@,
            ),
    {
        let bounds = range.normalized();
        let ghost start = output@;
        output.push_str("<tr style=\"height:");
        output.push_str(height);
        output.push_str("px;\">");
        let ghost before = output@;
        let ghost texts = strings_view(widths@);
        let ghost cells = Seq::new(
            range.width(),
            |i: int| html_cell(self@.cell(row as int, range.left_col() + i), texts[i], height@),
        );
        let mut index: usize = 0;
        assert(cells.take(0) == Seq::<Seq<char>>::empty());
        while index < widths.len()
            invariant
                bounds == range.ordered(),
                index <= widths@.len(),
                widths@.len() == range.width(),
                texts == strings_view(widths@),
                cells == Seq::new(
                    range.width(),
                    |i: int|
                        html_cell(self@.cell(row as int, range.left_col() + i), texts[i], height@),
                ),
                output@ == before + concatenated(cells.take(index as int)),
            decreases widths@.len() - index,
        {
            proof {
                assert(cells.take(index + 1).drop_last() == cells.take(index as int));
                assert(cells.take(index + 1).last() == cells[index as int]);
            }
            let ghost earlier = output@;
            let cell = self.cell_data(row, bounds.start.col + index);
            output.push_str("<td style=\"");
            let style = clipboard_html_cell_style(&cell, widths[index].as_str(), height);
            output.push_str(style.as_str());
            output.push_str("\">");
            append_html_text(output, cell.value.as_str());
            output.push_str("</td>");
            assert(output@ =~= earlier + html_cell(cell@, texts[index as int], height@));
            index += 1;
            assert(output@ =~= before + concatenated(cells.take(index as int)));
        }
        assert(cells.take(index as int) == cells);
        output.push_str("</tr>");
        assert(output@ =~= start + html_row(self@, range, row as int, texts, height@));
    }

    /// A range as an HTML table. The extents of its columns and rows have to be
    /// given as texts.
    pub fn range_to_html(
        &self,
        range: CellRange,
        widths: &Vec<String>,
        heights: &Vec<String>,
    ) -> (text: String)
        requires
            widths@.len() == range.width(),
            heights@.len() == range.height(),
        ensures
            text@ == html(self@, range, strings_view(widths@), strings_view(heights@)),
    {
        let bounds = range.normalized();
        let ghost texts = strings_view(widths@);
        let ghost extents = strings_view(heights@);
        let ghost rows = Seq::new(
            range.height(),
            |i: int| html_row(self@, range, range.top_row() + i, texts, extents[i]),
        );
        let mut output =
            "<html><head><meta charset=\"utf-8\"></head><body><table cellspacing=\"0\" cellpadding=\"0\" style=\"border-collapse:collapse;\">".to_owned();
        let ghost before = output@;
        let mut index: usize = 0;
        assert(rows.take(0) == Seq::<Seq<char>>::empty());
        while index < heights.len()
            invariant
                bounds == range.ordered(),
                index <= heights@.len(),
                heights@.len() == range.height(),
                widths@.len() == range.width(),
                texts == strings_view(widths@),
                extents == strings_view(heights@),
                rows == Seq::new(
                    range.height(),
                    |i: int| html_row(self@, range, range.top_row() + i, texts, extents[i]),
                ),
                output@ == before + concatenated(rows.take(index as int)),
            decreases heights@.len() - index,
        {
            proof {
                assert(rows.take(index + 1).drop_last() == rows.take(index as int));
                assert(rows.take(index + 1).last() == rows[index as int]);
            }
            self.append_html_row(
                &mut output,
                range,
                bounds.start.row + index,
                widths,
                heights[index].as_str(),
            );
            index += 1;
            assert(output@ =~= before + concatenated(rows.take(index as int)));
        }
        assert(rows.take(index as int) == rows);
        output.push_str("</table></body></html>");
        output
    }

    /// Appends one cell of the sheet in XML.
    fn append_xml_cell(&self, output: &mut String, row: usize, col: usize)
        ensures
            final(output)@ == old(output)@ + xml_cell(
                self@.cell(row as int, col as int),
                col as int,
            ),
    {
        let ghost before = output@;
        let cell = self.cell_data(row, col);
        let tag = lower_text(column_name(col).as_str());
        output.push_str("    <");
        output.push_str(tag.as_str());
        if let Some(formula) = cell.active_formula() {
            output.push_str(" formula=\"");
            let chars = to_chars(formula.as_str());
            if chars.len() > 0 && chars[0] == '=' {
                let body = text_from(&chars, 1, chars.len());
                assert(body@ == formula@.skip(1));
                append_xml_attr(output, body.as_str());
            } else {
                append_xml_attr(output, formula.as_str());
            }
            output.push('"');
        }
        output.push('>');
        append_xml_text(output, cell.value.as_str());
        output.push_str("</");
        output.push_str(tag.as_str());
        output.push_str(">\n");
        assert(output@ =~= before + xml_cell(self@.cell(row as int, col as int), col as int));
    }

    /// Appends one row of the sheet in XML.
    fn append_xml_row(&self, output: &mut String, row: usize)
        requires
            row < self@.row_count,
        ensures
            final(output)@ == old(output)@ + xml_row(self@, row as int),
    {
        let ghost start = output@;
        let mut tag = "row_".to_owned();
        push_decimal(&mut tag, (row + 1) as u64);
        output.push_str("  <");
        output.push_str(tag.as_str());
        output.push_str(">\n");
        let ghost before = output@;
        let ghost cells = Seq::new(
            self@.col_count,
            |col: int| xml_cell(self@.cell(row as int, col), col),
        );
        let mut col: usize = 0;
        assert(cells.take(0) == Seq::<Seq<char>>::empty());
        while col < self.col_count
            invariant
                col <= self.col_count,
                cells == Seq::new(
                    self@.col_count,
                    |col: int| xml_cell(self@.cell(row as int, col), col),
                ),
                output@ == before + concatenated(cells.take(col as int)),
            decreases self.col_count - col,
        {
            proof {
                assert(cells.take(col + 1).drop_last() == cells.take(col as int));
                assert(cells.take(col + 1).last() == cells[col as int]);
            }
            self.append_xml_cell(output, row, col);
            col += 1;
            assert(output@ =~= before + concatenated(cells.take(col as int)));
        }
        assert(cells.take(col as int) == cells);
        output.push_str("  </");
        output.push_str(tag.as_str());
        output.push_str(">\n");
        assert(output@ =~= start + xml_row(self@, row as int));
    }

    /// The sheet as indented XML.
    pub fn to_pretty_xml(&self) -> (text: String)
        ensures
            text@ == pretty_xml(self@),
    {
        let mut output = "<sheet name=\"".to_owned();
        append_xml_attr(&mut output, self.name.as_str());
        output.push_str("\">\n");
        let ghost before = output@;
        let ghost rows = Seq::new(self@.row_count, |row: int| xml_row(self@, row));
        let mut row: usize = 0;
        assert(rows.take(0) == Seq::<Seq<char>>::empty());
        while row < self.row_count
            invariant
                row <= self.row_count,
                rows == Seq::new(self@.row_count, |row: int| xml_row(self@, row)),
                output@ == before + concatenated(rows.take(row as int)),
            decreases self.row_count - row,
        {
            proof {
                assert(rows.take(row + 1).drop_last() == rows.take(row as int));
                assert(rows.take(row + 1).last() == rows[row as int]);
            }
            self.append_xml_row(&mut output, row);
            row += 1;
            assert(output@ =~= before + concatenated(rows.take(row as int)));
        }
        assert(rows.take(row as int) == rows);
        output.push_str("</sheet>");
        output
    }

    /// Describes one cell for a listing.
    fn inspect_cell(&self, row: usize, col: usize) -> (cell: InspectedCell)
        requires
            row < self@.row_count,
        ensures
            cell@ == inspected_cell(self@, row as int, col as int),
    {
        let cell = self.cell_data(row, col);
        let text_color: u32 = match cell.style.text_color {
            Some(color) => color,
            None => DEFAULT_TEXT_COLOR,
        };
        let background: u32 = match cell.style.background_color {
            Some(color) => color,
            None => DEFAULT_BACKGROUND_COLOR,
        };
        InspectedCell {
            x: column_name(col),
            y: row + 1,
            display_value: cell.value,
            fg: color_hex(text_color),
            bg: color_hex(background),
            bold: cell.style.bold,
            width: self.column_width(col),
            height: self.row_height(row),
        }
    }

    /// Lists the cells of the sheet, row by row.
    pub fn inspect(&self) -> (listing: InspectedSheet)
        ensures
            listing.sheet@ == self@.name,
            listing.rows == self@.row_count,
            listing.cols == self@.col_count,
            inspected_view(listing.cells@) == inspected_rows(self@, self@.row_count),
    {
        let mut cells: Vec<InspectedCell> = Vec::new();
        assert(inspected_view(cells@) == Seq::<InspectedCellView>::empty());
        let mut row: usize = 0;
        while row < self.row_count
            invariant
                row <= self.row_count,
                inspected_view(cells@) == inspected_rows(self@, row as nat),
            decreases self.row_count - row,
        {
            let ghost before = inspected_view(cells@);
            let mut col: usize = 0;
            while col < self.col_count
                invariant
                    row < self.row_count,
                    col <= self.col_count,
                    inspected_view(cells@) == before + Seq::new(
                        col as nat,
                        |col: int| inspected_cell(self@, row as int, col),
                    ),
                decreases self.col_count - col,
            {
                let cell = self.inspect_cell(row, col);
                let ghost earlier = inspected_view(cells@);
                cells.push(cell);
                assert(inspected_view(cells@) =~= earlier.push(cell@));
                col += 1;
                assert(inspected_view(cells@) =~= before + Seq::new(
                    col as nat,
                    |col: int| inspected_cell(self@, row as int, col),
                ));
            }
            row += 1;
            assert(inspected_view(cells@) =~= inspected_rows(self@, row as nat));
        }
        InspectedSheet {
            sheet: self.name.clone(),
            rows: self.row_count,
            cols: self.col_count,
            cells,
        }
    }
}

/// A piece without separators behind a separator is the last piece.
pub proof fn lemma_pieces_append(text: Seq<char>, separator: char, part: Seq<char>)
    requires
        !part.contains(separator),
    ensures
        pieces(text + seq![separator] + part, separator) == pieces(text, separator).push(part),
    decreases part.len(),
{
    let whole = text + seq![separator] + part;
    if part.len() == 0 {
        assert(whole.drop_last() == text);
        assert(whole.last() == separator);
        assert(part == Seq::<char>::empty());
    } else {
        let shorter = part.drop_last();
        assert(part.contains(part.last()));
        assert forall|i: int| 0 <= i < shorter.len() implies shorter[i] != separator by {
            assert(part.contains(part[i]));
        }
        lemma_pieces_append(text, separator, shorter);
        assert(whole.drop_last() == text + seq![separator] + shorter);
        assert(whole.last() == part.last());
        let earlier = pieces(text, separator).push(shorter);
        assert(earlier.drop_last() == pieces(text, separator));
        assert(earlier.last() == shorter);
        assert(shorter.push(part.last()) == part);
    }
}

/// A text without separators is one piece.
pub proof fn lemma_pieces_single(part: Seq<char>, separator: char)
    requires
        !part.contains(separator),
    ensures
        pieces(part, separator) == seq![part],
    decreases part.len(),
{
    if part.len() > 0 {
        let shorter = part.drop_last();
        assert(part.contains(part.last()));
        assert forall|i: int| 0 <= i < shorter.len() implies shorter[i] != separator by {
            assert(part.contains(part[i]));
        }
        lemma_pieces_single(shorter, separator);
        assert(seq![shorter].drop_last() == Seq::<Seq<char>>::empty());
        assert(seq![shorter].last() == shorter);
        assert(shorter.push(part.last()) == part);
        assert(Seq::<Seq<char>>::empty().push(part) == seq![part]);
    } else {
        assert(part == Seq::<char>::empty());
    }
}

/// Splitting what was joined gives the parts back, if none of them holds the
/// separator.
pub proof fn joining_is_undone_by_splitting(parts: Seq<Seq<char>>, separator: char)
    requires
        parts.len() > 0,
        forall|i: int| 0 <= i < parts.len() ==> !(#[trigger] parts[i]).contains(separator),
    ensures
        pieces(joined(parts, seq![separator]), separator) == parts,
    decreases parts.len(),
{
    if parts.len() == 1 {
        lemma_pieces_single(parts[0], separator);
        assert(seq![parts[0]] == parts);
    } else {
        joining_is_undone_by_splitting(parts.drop_last(), separator);
        lemma_pieces_append(
            joined(parts.drop_last(), seq![separator]),
            separator,
            parts.last(),
        );
        assert(parts.drop_last().push(parts.last()) == parts);
    }
}

/// Joined parts hold no character that neither they nor the separator hold.
proof fn lemma_joined_avoids(parts: Seq<Seq<char>>, separator: char, avoided: char)
    requires
        separator != avoided,
        forall|i: int| 0 <= i < parts.len() ==> !(#[trigger] parts[i]).contains(avoided),
    ensures
        !joined(parts, seq![separator]).contains(avoided),
    decreases parts.len(),
{
    if parts.len() > 1 {
        let head = joined(parts.drop_last(), seq![separator]);
        lemma_joined_avoids(parts.drop_last(), separator, avoided);
        let whole = head + seq![separator] + parts.last();
        assert forall|i: int| 0 <= i < whole.len() implies whole[i] != avoided by {
            if i < head.len() {
                assert(head.contains(head[i]));
            } else if i > head.len() {
                let tail = parts[parts.len() - 1];
                assert(tail.contains(tail[i - head.len() - 1]));
            }
        }
    }
}

/// A copied range is a grid again: its lines are the rows and the tabs in a line
/// separate the cells, whatever the cells hold.
pub proof fn copied_text_keeps_the_grid(sheet: SheetView, range: CellRange)
    ensures
        pieces(tsv(sheet, range), '\n').len() == range.height(),
        forall|row: int|
            0 <= row < range.height() ==> #[trigger] pieces(tsv(sheet, range), '\n')[row]
                == tsv_row(sheet, range, range.top_row() + row),
        forall|row: int| #[trigger]
            pieces(tsv_row(sheet, range, row), '\t') == Seq::new(
                range.width(),
                |i: int| clipboard_text(sheet.cell(row, range.left_col() + i).value),
            ),
{
    let rows = Seq::new(range.height(), |i: int| tsv_row(sheet, range, range.top_row() + i));
    assert forall|row: int| #[trigger]
        pieces(tsv_row(sheet, range, row), '\t') == Seq::new(
            range.width(),
            |i: int| clipboard_text(sheet.cell(row, range.left_col() + i).value),
        ) by {
        let cells = Seq::new(
            range.width(),
            |i: int| clipboard_text(sheet.cell(row, range.left_col() + i).value),
        );
        assert forall|i: int| 0 <= i < cells.len() implies !(#[trigger] cells[i]).contains('\t') by {
            crate::escape::clipboard_cells_hold_no_separators(
                sheet.cell(row, range.left_col() + i).value,
            );
        }
        joining_is_undone_by_splitting(cells, '\t');
    }
    assert forall|r: int| 0 <= r < rows.len() implies !(#[trigger] rows[r]).contains('\n') by {
        let row = range.top_row() + r;
        let cells = Seq::new(
            range.width(),
            |i: int| clipboard_text(sheet.cell(row, range.left_col() + i).value),
        );
        assert forall|i: int| 0 <= i < cells.len() implies !(#[trigger] cells[i]).contains('\n') by {
            crate::escape::clipboard_cells_hold_no_separators(
                sheet.cell(row, range.left_col() + i).value,
            );
        }
        lemma_joined_avoids(cells, '\t', '\n');
    }
    joining_is_undone_by_splitting(rows, '\n');
}

/// How far an HTML table is read: whether a tag is open, what it says so far, the text
/// since the last tag, the tag of the last cell, and the rows of cells so far, each with its
/// tag and its text.
#[verifier::ext_equal]
pub struct TableReading {
    pub in_tag: bool,
    pub tag: Seq<char>,
    pub text: Seq<char>,
    pub cell_tag: Seq<char>,
    pub rows: Seq<Seq<(Seq<char>, Seq<char>)>>,
}

impl TableReading {
    pub open spec fn initial() -> Self {
        TableReading {
            in_tag: false,
            tag: Seq::empty(),
            text: Seq::empty(),
            cell_tag: Seq::empty(),
            rows: Seq::empty(),
        }
    }

    /// The reading behind a tag: a row or a cell begins, or a cell ends, whose text is read
    /// with its entities resolved.
    pub open spec fn after_tag(self, tag: Seq<char>) -> Self {
        let rows = if begins_with(tag, "tr"@) {
            self.rows.push(Seq::empty())
        } else if tag == "/td"@ && self.rows.len() > 0 {
            self.rows.drop_last().push(
                self.rows.last().push((self.cell_tag, unescaped(self.text))),
            )
        } else {
            self.rows
        };
        TableReading {
            in_tag: false,
            tag: Seq::empty(),
            text: Seq::empty(),
            cell_tag: if begins_with(tag, "td"@) {
                tag
            } else {
                self.cell_tag
            },
            rows,
        }
    }

    /// The reading behind another character.
    pub open spec fn after(self, ch: char) -> Self {
        if self.in_tag {
            if ch == '>' {
                self.after_tag(self.tag)
            } else {
                TableReading { tag: self.tag.push(ch), ..self }
            }
        } else if ch == '<' {
            TableReading { in_tag: true, tag: Seq::empty(), ..self }
        } else {
            TableReading { text: self.text.push(ch), ..self }
        }
    }

    /// The reading behind more text.
    pub open spec fn read_on(self, text: Seq<char>) -> Self
        decreases text.len(),
    {
        if text.len() == 0 {
            self
        } else {
            self.read_on(text.drop_last()).after(text.last())
        }
    }

    /// Reading goes on where it stopped.
    proof fn lemma_read_on(self, first: Seq<char>, second: Seq<char>)
        ensures
            self.read_on(first + second) == self.read_on(first).read_on(second),
        decreases second.len(),
    {
        if second.len() == 0 {
            assert(first + second == first);
        } else {
            assert((first + second).drop_last() == first + second.drop_last());
            self.lemma_read_on(first, second.drop_last());
        }
    }

    /// Inside a tag, characters are collected.
    proof fn lemma_inside_tag(self, content: Seq<char>)
        requires
            self.in_tag,
            !content.contains('>'),
        ensures
            self.read_on(content) == (TableReading { tag: self.tag + content, ..self }),
        decreases content.len(),
    {
        if content.len() == 0 {
            assert(self.tag + content == self.tag);
        } else {
            let shorter = content.drop_last();
            assert forall|i: int| 0 <= i < shorter.len() implies shorter[i] != '>' by {
                assert(content.contains(content[i]));
            }
            assert(content.contains(content.last()));
            self.lemma_inside_tag(shorter);
            assert((self.tag + shorter).push(content.last()) == self.tag + content);
        }
    }

    /// A whole tag is read as one.
    proof fn lemma_tag(self, tag: Seq<char>)
        requires
            !self.in_tag,
            !tag.contains('>'),
        ensures
            self.read_on(tagged(tag)) == self.after_tag(tag),
    {
        let opened = TableReading { in_tag: true, tag: Seq::empty(), ..self };
        let open = seq!['<'];
        assert(open.drop_last() == Seq::<char>::empty());
        assert(self.read_on(open.drop_last()) == self);
        assert(self.read_on(open) == opened);
        self.lemma_read_on(open, tag);
        opened.lemma_inside_tag(tag);
        assert(Seq::<char>::empty() + tag == tag);
        let inside = TableReading { tag, ..opened };
        let close = seq!['>'];
        self.lemma_read_on(open + tag, close);
        assert(close.drop_last() == Seq::<char>::empty());
        assert(inside.read_on(close.drop_last()) == inside);
        assert(inside.read_on(close) == inside.after_tag(tag));
        assert(inside.after_tag(tag) == self.after_tag(tag));
        assert(tagged(tag) == open + tag + close);
    }

    /// Outside of tags, text is collected.
    proof fn lemma_text(self, content: Seq<char>)
        requires
            !self.in_tag,
            !content.contains('<'),
        ensures
            self.read_on(content) == (TableReading { text: self.text + content, ..self }),
        decreases content.len(),
    {
        if content.len() == 0 {
            assert(self.text + content == self.text);
        } else {
            let shorter = content.drop_last();
            assert forall|i: int| 0 <= i < shorter.len() implies shorter[i] != '<' by {
                assert(content.contains(content[i]));
            }
            assert(content.contains(content.last()));
            self.lemma_text(shorter);
            assert((self.text + shorter).push(content.last()) == self.text + content);
        }
    }
}

/// A tag in angle brackets.
pub open spec fn tagged(tag: Seq<char>) -> Seq<char> {
    seq!['<'] + tag + seq!['>']
}

/// The cells of an HTML table, row by row, each with its tag and its text.
pub open spec fn table_of(text: Seq<char>) -> Seq<Seq<(Seq<char>, Seq<char>)>> {
    TableReading::initial().read_on(text).rows
}

/// The tag of a cell of a copied table.
pub open spec fn cell_tag(cell: CellView, width: Seq<char>, height: Seq<char>) -> Seq<char> {
    "td style=\""@ + html_cell_style(cell, width, height) + "\""@
}

proof fn lemma_color_has_no(color: u32, ch: char)
    requires
        !is_digit_of(ch, 16),
    ensures
        !color_digits_text(color).contains(ch),
{
    let digits = digits_of(color as nat, 16);
    digits_denote_their_number(color as nat, 16);
    padding_keeps_the_number(digits, 6, 16);
    let text = color_digits_text(color);
    assert forall|i: int| 0 <= i < text.len() implies text[i] != ch by {
        assert(is_digit_of(text[i], 16));
    }
}

/// A joined text holds a character only if one of the parts does.
proof fn lemma_add_has_no(first: Seq<char>, second: Seq<char>, ch: char)
    requires
        !first.contains(ch),
        !second.contains(ch),
    ensures
        !(first + second).contains(ch),
{
    let whole = first + second;
    assert forall|i: int| 0 <= i < whole.len() implies whole[i] != ch by {
        if i < first.len() {
            assert(first.contains(first[i]));
        } else {
            assert(second.contains(second[i - first.len()]));
        }
    }
}

proof fn lemma_style_has_no_bracket(cell: CellView, width: Seq<char>, height: Seq<char>)
    requires
        !width.contains('>'),
        !height.contains('>'),
    ensures
        !cell_tag(cell, width, height).contains('>'),
{
    reveal_strlit("border:1px solid #d9d9d9;padding:2px 8px;min-width:");
    reveal_strlit("px;width:");
    reveal_strlit("px;height:");
    reveal_strlit("px;color:#");
    reveal_strlit(";background-color:#");
    reveal_strlit(";font-weight:");
    reveal_strlit("bold");
    reveal_strlit("normal");
    reveal_strlit(";font-family:Arial,sans-serif;font-size:13px;white-space:pre-wrap;");
    reveal_strlit("td style=\"");
    reveal_strlit("\"");
    let front = color_digits_text(color_or(cell.style.text_color, DEFAULT_TEXT_COLOR));
    let back = color_digits_text(color_or(cell.style.background_color, DEFAULT_BACKGROUND_COLOR));
    lemma_color_has_no(color_or(cell.style.text_color, DEFAULT_TEXT_COLOR), '>');
    lemma_color_has_no(color_or(cell.style.background_color, DEFAULT_BACKGROUND_COLOR), '>');
    let weight = if cell.style.bold {
        "bold"@
    } else {
        "normal"@
    };
    let a = "border:1px solid #d9d9d9;padding:2px 8px;min-width:"@;
    let b = a + width;
    lemma_add_has_no(a, width, '>');
    let c = b + "px;width:"@;
    lemma_add_has_no(b, "px;width:"@, '>');
    let d = c + width;
    lemma_add_has_no(c, width, '>');
    let e = d + "px;height:"@;
    lemma_add_has_no(d, "px;height:"@, '>');
    let f = e + height;
    lemma_add_has_no(e, height, '>');
    let g = f + "px;color:#"@;
    lemma_add_has_no(f, "px;color:#"@, '>');
    let h = g + front;
    lemma_add_has_no(g, front, '>');
    let i = h + ";background-color:#"@;
    lemma_add_has_no(h, ";background-color:#"@, '>');
    let j = i + back;
    lemma_add_has_no(i, back, '>');
    let k = j + ";font-weight:"@;
    lemma_add_has_no(j, ";font-weight:"@, '>');
    let l = k + weight;
    lemma_add_has_no(k, weight, '>');
    let tail = ";font-family:Arial,sans-serif;font-size:13px;white-space:pre-wrap;"@;
    let m = l + tail;
    lemma_add_has_no(l, tail, '>');
    assert(m == html_cell_style(cell, width, height));
    lemma_add_has_no("td style=\""@, m, '>');
    lemma_add_has_no("td style=\""@ + m, "\""@, '>');
}

/// What is read of a cell of a copied table: its tag and its text.
proof fn lemma_cell_is_read(
    reading: TableReading,
    cell: CellView,
    width: Seq<char>,
    height: Seq<char>,
)
    requires
        !reading.in_tag,
        reading.rows.len() > 0,
        !width.contains('>'),
        !height.contains('>'),
    ensures
        ({
            let after = reading.read_on(html_cell(cell, width, height));
            &&& !after.in_tag
            &&& after.rows == reading.rows.drop_last().push(
                reading.rows.last().push((cell_tag(cell, width, height), cell.value)),
            )
        }),
{
    reveal_strlit("<td style=\"");
    reveal_strlit("td style=\"");
    reveal_strlit("\"");
    reveal_strlit("\">");
    reveal_strlit("</td>");
    reveal_strlit("/td");
    reveal_strlit("td");
    reveal_strlit("tr");
    let tag = cell_tag(cell, width, height);
    lemma_style_has_no_bracket(cell, width, height);
    let value = html_text(cell.value);
    crate::escape::escaped_text_stays_in_place(cell.value);
    crate::escape::escaping_is_undone_by_reading(cell.value);
    assert(html_cell(cell, width, height) =~= tagged(tag) + value + tagged("/td"@));
    reading.lemma_read_on(tagged(tag), value);
    reading.lemma_read_on(tagged(tag) + value, tagged("/td"@));
    reading.lemma_tag(tag);
    assert(tag[0] == 't' && tag[1] == 'd');
    assert(tag.take(2) =~= "td"@);
    assert(begins_with(tag, "td"@));
    if begins_with(tag, "tr"@) {
        assert(tag.take(2)[1] == tag[1]);
    }
    assert(tag != "/td"@) by {
        if tag == "/td"@ {
            assert(tag[0] == "/td"@[0]);
        }
    }
    let opened = reading.after_tag(tag);
    opened.lemma_text(value);
    assert(Seq::<char>::empty() + value == value);
    let filled = TableReading { text: value, ..opened };
    assert forall|i: int| 0 <= i < "/td"@.len() implies "/td"@[i] != '>' by {}
    filled.lemma_tag("/td"@);
    if begins_with("/td"@, "tr"@) {
        assert("/td"@.take(2)[0] == "/td"@[0]);
    }
}

/// What is read of the first cells of a row of a copied table.
proof fn lemma_cells_are_read(
    reading: TableReading,
    cells: Seq<CellView>,
    widths: Seq<Seq<char>>,
    height: Seq<char>,
    texts: Seq<Seq<char>>,
)
    requires
        !reading.in_tag,
        reading.rows.len() > 0,
        reading.rows.last() == Seq::<(Seq<char>, Seq<char>)>::empty(),
        cells.len() == widths.len(),
        texts == Seq::new(cells.len(), |i: int| html_cell(cells[i], widths[i], height)),
        forall|i: int| 0 <= i < widths.len() ==> !(#[trigger] widths[i]).contains('>'),
        !height.contains('>'),
    ensures
        ({
            let after = reading.read_on(concatenated(texts));
            &&& !after.in_tag
            &&& after.rows == reading.rows.drop_last().push(
                Seq::new(
                    cells.len(),
                    |i: int| (cell_tag(cells[i], widths[i], height), cells[i].value),
                ),
            )
        }),
    decreases cells.len(),
{
    let row = Seq::new(
        cells.len(),
        |i: int| (cell_tag(cells[i], widths[i], height), cells[i].value),
    );
    if cells.len() == 0 {
        assert(row =~= Seq::<(Seq<char>, Seq<char>)>::empty());
        assert(reading.rows.drop_last().push(reading.rows.last()) =~= reading.rows);
    } else {
        let fewer = cells.drop_last();
        let shorter = texts.drop_last();
        assert(shorter =~= Seq::new(
            fewer.len(),
            |i: int| html_cell(fewer[i], widths.drop_last()[i], height),
        ));
        lemma_cells_are_read(reading, fewer, widths.drop_last(), height, shorter);
        reading.lemma_read_on(concatenated(shorter), texts.last());
        let middle = reading.read_on(concatenated(shorter));
        lemma_cell_is_read(middle, cells.last(), widths.last(), height);
        assert(middle.rows.drop_last() =~= reading.rows.drop_last());
        assert(middle.rows.last().push(
            (cell_tag(cells.last(), widths.last(), height), cells.last().value),
        ) =~= row);
    }
}

/// What is read of a row of a copied table.
proof fn lemma_row_is_read(
    reading: TableReading,
    sheet: SheetView,
    range: CellRange,
    row: int,
    widths: Seq<Seq<char>>,
    height: Seq<char>,
)
    requires
        !reading.in_tag,
        widths.len() == range.width(),
        forall|i: int| 0 <= i < widths.len() ==> !(#[trigger] widths[i]).contains('>'),
        !height.contains('>'),
    ensures
        ({
            let after = reading.read_on(html_row(sheet, range, row, widths, height));
            &&& !after.in_tag
            &&& after.rows == reading.rows.push(
                Seq::new(
                    range.width(),
                    |i: int|
                        (
                            cell_tag(
                                sheet.cell(row, range.left_col() + i),
                                widths[i],
                                height,
                            ),
                            sheet.cell(row, range.left_col() + i).value,
                        ),
                ),
            )
        }),
{
    reveal_strlit("<tr style=\"height:");
    reveal_strlit("px;\">");
    reveal_strlit("tr style=\"height:");
    reveal_strlit("px;\"");
    reveal_strlit("</tr>");
    reveal_strlit("/tr");
    reveal_strlit("/td");
    reveal_strlit("td");
    reveal_strlit("tr");
    let cells = Seq::new(range.width(), |i: int| sheet.cell(row, range.left_col() + i));
    let texts = Seq::new(
        range.width(),
        |i: int| html_cell(sheet.cell(row, range.left_col() + i), widths[i], height),
    );
    assert(texts =~= Seq::new(cells.len(), |i: int| html_cell(cells[i], widths[i], height)));
    let tag = "tr style=\"height:"@ + height + "px;\""@;
    lemma_add_has_no("tr style=\"height:"@, height, '>');
    lemma_add_has_no("tr style=\"height:"@ + height, "px;\""@, '>');
    let text = html_row(sheet, range, row, widths, height);
    assert(text =~= tagged(tag) + concatenated(texts) + tagged("/tr"@));
    reading.lemma_read_on(tagged(tag), concatenated(texts));
    reading.lemma_read_on(tagged(tag) + concatenated(texts), tagged("/tr"@));
    reading.lemma_tag(tag);
    assert(tag.take(2) =~= "tr"@);
    assert(begins_with(tag, "tr"@));
    let opened = reading.after_tag(tag);
    assert(opened.rows == reading.rows.push(Seq::empty()));
    lemma_cells_are_read(opened, cells, widths, height, texts);
    let filled = opened.read_on(concatenated(texts));
    filled.lemma_tag("/tr"@);
    if begins_with("/tr"@, "tr"@) {
        assert("/tr"@.take(2)[0] == "/tr"@[0]);
    }
    assert("/tr"@ != "/td"@) by {
        if "/tr"@ == "/td"@ {
            assert("/tr"@[2] == "/td"@[2]);
        }
    }
    assert(opened.rows.drop_last() =~= reading.rows);
    assert(Seq::new(
        cells.len(),
        |i: int| (cell_tag(cells[i], widths[i], height), cells[i].value),
    ) =~= Seq::new(
        range.width(),
        |i: int|
            (
                cell_tag(sheet.cell(row, range.left_col() + i), widths[i], height),
                sheet.cell(row, range.left_col() + i).value,
            ),
    ));
}

/// The cells that a copied table holds.
pub open spec fn copied_cells(
    sheet: SheetView,
    range: CellRange,
    widths: Seq<Seq<char>>,
    heights: Seq<Seq<char>>,
) -> Seq<Seq<(Seq<char>, Seq<char>)>> {
    Seq::new(
        heights.len(),
        |r: int|
            Seq::new(
                range.width(),
                |c: int|
                    (
                        cell_tag(
                            sheet.cell(range.top_row() + r, range.left_col() + c),
                            widths[c],
                            heights[r],
                        ),
                        sheet.cell(range.top_row() + r, range.left_col() + c).value,
                    ),
            ),
    )
}

proof fn lemma_rows_are_read(
    reading: TableReading,
    sheet: SheetView,
    range: CellRange,
    widths: Seq<Seq<char>>,
    heights: Seq<Seq<char>>,
    rows: Seq<Seq<char>>,
)
    requires
        !reading.in_tag,
        reading.rows == Seq::<Seq<(Seq<char>, Seq<char>)>>::empty(),
        widths.len() == range.width(),
        rows == Seq::new(
            heights.len(),
            |r: int| html_row(sheet, range, range.top_row() + r, widths, heights[r]),
        ),
        forall|i: int| 0 <= i < widths.len() ==> !(#[trigger] widths[i]).contains('>'),
        forall|i: int| 0 <= i < heights.len() ==> !(#[trigger] heights[i]).contains('>'),
    ensures
        !reading.read_on(concatenated(rows)).in_tag,
        reading.read_on(concatenated(rows)).rows == copied_cells(sheet, range, widths, heights),
    decreases heights.len(),
{
    let cells = copied_cells(sheet, range, widths, heights);
    if heights.len() == 0 {
        assert(cells =~= Seq::<Seq<(Seq<char>, Seq<char>)>>::empty());
    } else {
        let fewer = heights.drop_last();
        let shorter = rows.drop_last();
        assert(shorter =~= Seq::new(
            fewer.len(),
            |r: int| html_row(sheet, range, range.top_row() + r, widths, fewer[r]),
        ));
        lemma_rows_are_read(reading, sheet, range, widths, fewer, shorter);
        reading.lemma_read_on(concatenated(shorter), rows.last());
        let middle = reading.read_on(concatenated(shorter));
        let last = heights.len() - 1;
        lemma_row_is_read(middle, sheet, range, range.top_row() + last, widths, heights[last]);
        let earlier = copied_cells(sheet, range, widths, fewer);
        assert forall|r: int| 0 <= r < earlier.len() implies earlier[r] == cells[r] by {
            assert(earlier[r] =~= cells[r]);
        }
        assert(cells =~= earlier.push(cells[last]));
    }
}

/// Reading past a tag that is neither a row's nor a cell's.
proof fn lemma_other_tag(reading: TableReading, tag: Seq<char>)
    requires
        !reading.in_tag,
        !tag.contains('>'),
        tag.len() > 1,
        tag[0] != 't' || (tag[1] != 'r' && tag[1] != 'd'),
        tag.len() != 3 || tag[2] != 'd',
    ensures
        !reading.read_on(tagged(tag)).in_tag,
        reading.read_on(tagged(tag)).rows == reading.rows,
{
    reveal_strlit("tr");
    reveal_strlit("td");
    reveal_strlit("/td");
    reading.lemma_tag(tag);
    if begins_with(tag, "tr"@) {
        assert(tag.take(2)[0] == tag[0] && tag.take(2)[1] == tag[1]);
    }
    if tag == "/td"@ {
        assert(tag[2] == "/td"@[2]);
    }
}

/// A copied table holds the range: it has a row for each row of the range and a cell for
/// each column, and the cell in a row and a column reads as what the sheet displays there,
/// counted from the upper left corner of the range, whatever the cells hold.
pub proof fn copied_tables_hold_the_range(
    sheet: SheetView,
    range: CellRange,
    widths: Seq<Seq<char>>,
    heights: Seq<Seq<char>>,
)
    requires
        widths.len() == range.width(),
        heights.len() == range.height(),
        forall|i: int| 0 <= i < widths.len() ==> !(#[trigger] widths[i]).contains('>'),
        forall|i: int| 0 <= i < heights.len() ==> !(#[trigger] heights[i]).contains('>'),
    ensures
        ({
            let table = table_of(html(sheet, range, widths, heights));
            &&& table.len() == range.bottom_row() - range.top_row() + 1
            &&& forall|r: int|
                0 <= r < table.len() ==> (#[trigger] table[r]).len() == range.right_col()
                    - range.left_col() + 1
            &&& forall|r: int, c: int|
                0 <= r < table.len() && 0 <= c < table[r].len() ==> (#[trigger] table[r][c]).1
                    == sheet.cell(range.top_row() + r, range.left_col() + c).value
        }),
        table_of(html(sheet, range, widths, heights)) == copied_cells(
            sheet,
            range,
            widths,
            heights,
        ),
{
    reveal_strlit(
        "<html><head><meta charset=\"utf-8\"></head><body><table cellspacing=\"0\" cellpadding=\"0\" style=\"border-collapse:collapse;\">",
    );
    reveal_strlit("html");
    reveal_strlit("head");
    reveal_strlit("meta charset=\"utf-8\"");
    reveal_strlit("/head");
    reveal_strlit("body");
    reveal_strlit(
        "table cellspacing=\"0\" cellpadding=\"0\" style=\"border-collapse:collapse;\"",
    );
    reveal_strlit("</table></body></html>");
    reveal_strlit("/table");
    reveal_strlit("/body");
    reveal_strlit("/html");
    let table = "table cellspacing=\"0\" cellpadding=\"0\" style=\"border-collapse:collapse;\""@;
    let a = tagged("html"@);
    let b = a + tagged("head"@);
    let c = b + tagged("meta charset=\"utf-8\""@);
    let d = c + tagged("/head"@);
    let e = d + tagged("body"@);
    let f = e + tagged(table);
    let start = TableReading::initial();
    assert(f
        =~= "<html><head><meta charset=\"utf-8\"></head><body><table cellspacing=\"0\" cellpadding=\"0\" style=\"border-collapse:collapse;\">"@);
    lemma_other_tag(start, "html"@);
    start.lemma_read_on(a, tagged("head"@));
    lemma_other_tag(start.read_on(a), "head"@);
    start.lemma_read_on(b, tagged("meta charset=\"utf-8\""@));
    lemma_other_tag(start.read_on(b), "meta charset=\"utf-8\""@);
    start.lemma_read_on(c, tagged("/head"@));
    lemma_other_tag(start.read_on(c), "/head"@);
    start.lemma_read_on(d, tagged("body"@));
    lemma_other_tag(start.read_on(d), "body"@);
    start.lemma_read_on(e, tagged(table));
    lemma_other_tag(start.read_on(e), table);
    let rows = Seq::new(
        range.height(),
        |i: int| html_row(sheet, range, range.top_row() + i, widths, heights[i]),
    );
    let opened = start.read_on(f);
    lemma_rows_are_read(opened, sheet, range, widths, heights, rows);
    start.lemma_read_on(f, concatenated(rows));
    let g = f + concatenated(rows);
    let filled = start.read_on(g);
    let h = tagged("/table"@);
    let i = h + tagged("/body"@);
    let j = i + tagged("/html"@);
    assert(j =~= "</table></body></html>"@);
    lemma_other_tag(filled, "/table"@);
    filled.lemma_read_on(h, tagged("/body"@));
    lemma_other_tag(filled.read_on(h), "/body"@);
    filled.lemma_read_on(i, tagged("/html"@));
    lemma_other_tag(filled.read_on(i), "/html"@);
    start.lemma_read_on(g, j);
    assert(html(sheet, range, widths, heights) == g + j);
}

/// The pieces of two texts one behind the other: those of the first and those of the second,
/// the last of the one and the first of the other joined.
pub proof fn lemma_pieces_sum(first: Seq<char>, second: Seq<char>, separator: char)
    ensures
        pieces(first, separator).len() >= 1,
        pieces(second, separator).len() >= 1,
        ({
            let (one, other) = (pieces(first, separator), pieces(second, separator));
            pieces(first + second, separator) == one.drop_last().push(one.last() + other[0])
                + other.skip(1)
        }),
    decreases second.len(),
{
    let (one, other) = (pieces(first, separator), pieces(second, separator));
    lemma_some_piece(first, separator);
    lemma_some_piece(second, separator);
    if second.len() == 0 {
        assert(first + second =~= first);
        assert(one.last() + other[0] =~= one.last());
        assert(one.drop_last().push(one.last() + other[0]) + other.skip(1) =~= one);
    } else {
        let shorter = second.drop_last();
        let fewer = pieces(shorter, separator);
        lemma_pieces_sum(first, shorter, separator);
        assert((first + second).drop_last() =~= first + shorter);
        assert((first + second).last() == second.last());
        let earlier = one.drop_last().push(one.last() + fewer[0]) + fewer.skip(1);
        let whole = one.drop_last().push(one.last() + other[0]) + other.skip(1);
        if second.last() == separator {
            assert(other[0] == fewer[0]);
            assert(earlier.push(Seq::empty()) =~= whole);
        } else if fewer.len() == 1 {
            assert(fewer.drop_last().push(fewer.last().push(second.last())) =~= seq![
                fewer[0].push(second.last()),
            ]);
            assert((one.last() + fewer[0]).push(second.last()) =~= one.last() + other[0]);
            assert(earlier.drop_last().push(earlier.last().push(second.last())) =~= whole);
        } else {
            assert(other[0] == fewer[0]);
            assert(earlier.last() == fewer.last());
            assert(earlier.drop_last().push(earlier.last().push(second.last())) =~= whole);
        }
    }
}

proof fn lemma_some_piece(text: Seq<char>, separator: char)
    ensures
        pieces(text, separator).len() >= 1,
    decreases text.len(),
{
    if text.len() > 0 {
        lemma_some_piece(text.drop_last(), separator);
    }
}

/// Where all parts hold the same number of separators, the pieces of the parts one behind the
/// other are found by counting.
pub proof fn lemma_counted_pieces(
    parts: Seq<Seq<char>>,
    separator: char,
    count: nat,
    part: int,
    piece: int,
)
    requires
        count > 0,
        forall|i: int|
            0 <= i < parts.len() ==> pieces(#[trigger] parts[i], separator).len() == count + 1,
    ensures
        pieces(concatenated(parts), separator).len() == parts.len() * count + 1,
        0 <= part < parts.len() && 1 <= piece < count ==> 0 <= part * count + piece
            < parts.len() * count && pieces(concatenated(parts), separator)[part * count + piece]
            == pieces(parts[part], separator)[piece],
    decreases parts.len(),
{
    if parts.len() == 0 {
        assert(pieces(Seq::<char>::empty(), separator).len() == 1);
        assert(parts.len() * count == 0) by (nonlinear_arith)
            requires
                parts.len() == 0,
        ;
    } else {
        let fewer = parts.drop_last();
        assert forall|i: int| 0 <= i < fewer.len() implies pieces(
            #[trigger] fewer[i],
            separator,
        ).len() == count + 1 by {
            assert(fewer[i] == parts[i]);
        }
        lemma_counted_pieces(fewer, separator, count, part, piece);
        lemma_pieces_sum(concatenated(fewer), parts.last(), separator);
        assert(parts.last() == parts[parts.len() - 1]);
        assert(parts.len() * count == fewer.len() * count + count) by (nonlinear_arith)
            requires
                parts.len() == fewer.len() + 1,
        ;
        if 0 <= part < parts.len() && 1 <= piece < count {
            if part < fewer.len() {
                assert(fewer[part] == parts[part]);
            } else {
                assert(part * count == fewer.len() * count) by (nonlinear_arith)
                    requires
                        part == fewer.len(),
                ;
                assert(part * count >= 0) by (nonlinear_arith)
                    requires
                        part >= 0,
                ;
            }
        }
    }
}

proof fn lemma_style_openings()
    ensures
        "border:1px solid #d9d9d9;padding:2px 8px;min-width:"@ == "border:1px solid #d9d9d9"@
            + seq![';'] + "padding:2px 8px"@ + seq![';'] + "min-width:"@,
        !"border:1px solid #d9d9d9"@.contains(';'),
        !"padding:2px 8px"@.contains(';'),
        !"min-width:"@.contains(';'),
{
    reveal_strlit("border:1px solid #d9d9d9;padding:2px 8px;min-width:");
    reveal_strlit("border:1px solid #d9d9d9");
    reveal_strlit("padding:2px 8px");
    reveal_strlit("min-width:");
    assert("border:1px solid #d9d9d9;padding:2px 8px;min-width:"@ =~= "border:1px solid #d9d9d9"@
        + seq![';'] + "padding:2px 8px"@ + seq![';'] + "min-width:"@);
}

proof fn lemma_style_sizes()
    ensures
        "px;width:"@ == "px"@ + seq![';'] + "width:"@,
        "px;height:"@ == "px"@ + seq![';'] + "height:"@,
        "px;color:#"@ == "px"@ + seq![';'] + "color:#"@,
        !"px"@.contains(';'),
        !"width:"@.contains(';'),
        !"height:"@.contains(';'),
        !"color:#"@.contains(';'),
        "color:#"@.len() == 7,
{
    reveal_strlit("px;width:");
    reveal_strlit("px;height:");
    reveal_strlit("px;color:#");
    reveal_strlit("px");
    reveal_strlit("width:");
    reveal_strlit("height:");
    reveal_strlit("color:#");
    assert("px;width:"@ =~= "px"@ + seq![';'] + "width:"@);
    assert("px;height:"@ =~= "px"@ + seq![';'] + "height:"@);
    assert("px;color:#"@ =~= "px"@ + seq![';'] + "color:#"@);
}

proof fn lemma_style_weights()
    ensures
        ";background-color:#"@ == seq![';'] + "background-color:#"@,
        ";font-weight:"@ == seq![';'] + "font-weight:"@,
        !"background-color:#"@.contains(';'),
        !"font-weight:"@.contains(';'),
        "background-color:#"@.len() == 18,
        "font-weight:"@ + "bold"@ == "font-weight:bold"@,
        "font-weight:"@ + "normal"@ == "font-weight:normal"@,
        !"bold"@.contains(';'),
        !"normal"@.contains(';'),
{
    reveal_strlit(";background-color:#");
    reveal_strlit(";font-weight:");
    reveal_strlit("background-color:#");
    reveal_strlit("font-weight:");
    reveal_strlit("bold");
    reveal_strlit("normal");
    reveal_strlit("font-weight:bold");
    reveal_strlit("font-weight:normal");
    assert(";background-color:#"@ =~= seq![';'] + "background-color:#"@);
    assert(";font-weight:"@ =~= seq![';'] + "font-weight:"@);
    assert("font-weight:"@ + "bold"@ =~= "font-weight:bold"@);
    assert("font-weight:"@ + "normal"@ =~= "font-weight:normal"@);
}

proof fn lemma_style_endings()
    ensures
        ";font-family:Arial,sans-serif;font-size:13px;white-space:pre-wrap;"@ == seq![';']
            + "font-family:Arial,sans-serif"@ + seq![';'] + "font-size:13px"@ + seq![';']
            + "white-space:pre-wrap"@ + seq![';'],
        !"font-family:Arial,sans-serif"@.contains(';'),
        !"font-size:13px"@.contains(';'),
        !"white-space:pre-wrap"@.contains(';'),
{
    reveal_strlit(";font-family:Arial,sans-serif;font-size:13px;white-space:pre-wrap;");
    reveal_strlit("font-family:Arial,sans-serif");
    reveal_strlit("font-size:13px");
    reveal_strlit("white-space:pre-wrap");
    assert(";font-family:Arial,sans-serif;font-size:13px;white-space:pre-wrap;"@ =~= seq![';']
        + "font-family:Arial,sans-serif"@ + seq![';'] + "font-size:13px"@ + seq![';']
        + "white-space:pre-wrap"@ + seq![';']);
}

/// What is declared in the style of a copied cell.
spec fn declarations(
    width: Seq<char>,
    height: Seq<char>,
    ink: Seq<char>,
    paper: Seq<char>,
    weight: Seq<char>,
) -> Seq<Seq<char>> {
    seq![
        "border:1px solid #d9d9d9"@,
        "padding:2px 8px"@,
        "min-width:"@ + width + "px"@,
        "width:"@ + width + "px"@,
        "height:"@ + height + "px"@,
        "color:#"@ + ink,
        "background-color:#"@ + paper,
        "font-weight:"@ + weight,
        "font-family:Arial,sans-serif"@,
        "font-size:13px"@,
        "white-space:pre-wrap"@,
        Seq::<char>::empty(),
    ]
}

proof fn lemma_first_declarations(width: Seq<char>, height: Seq<char>)
    requires
        !width.contains(';'),
        !height.contains(';'),
    ensures
        ({
            let text = "border:1px solid #d9d9d9;padding:2px 8px;min-width:"@ + width + "px;width:"@
                + width + "px;height:"@ + height + "px;color:#"@;
            exists|head: Seq<char>|
                text == #[trigger] (head + seq![';'] + "color:#"@) && pieces(head, ';')
                    == declarations(width, height, width, width, width).take(5)
        }),
{
    lemma_style_openings();
    lemma_style_sizes();
    let semi = seq![';'];
    let px = "px"@;
    let part2 = "min-width:"@ + width + px;
    let part3 = "width:"@ + width + px;
    let part4 = "height:"@ + height + px;
    let t1 = "border:1px solid #d9d9d9"@ + semi + "padding:2px 8px"@;
    let t2 = t1 + semi + part2;
    let t3 = t2 + semi + part3;
    let t4 = t3 + semi + part4;
    let s2 = t1 + semi + "min-width:"@ + width + (px + semi + "width:"@);
    assert(s2 =~= t2 + semi + "width:"@);
    let s3 = t2 + semi + "width:"@ + width + (px + semi + "height:"@);
    assert(s3 =~= t3 + semi + "height:"@);
    let s4 = t3 + semi + "height:"@ + height + (px + semi + "color:#"@);
    assert(s4 =~= t4 + semi + "color:#"@);
    lemma_pieces_single("border:1px solid #d9d9d9"@, ';');
    lemma_pieces_append("border:1px solid #d9d9d9"@, ';', "padding:2px 8px"@);
    lemma_add_has_no("min-width:"@, width, ';');
    lemma_add_has_no("min-width:"@ + width, px, ';');
    lemma_pieces_append(t1, ';', part2);
    lemma_add_has_no("width:"@, width, ';');
    lemma_add_has_no("width:"@ + width, px, ';');
    lemma_pieces_append(t2, ';', part3);
    lemma_add_has_no("height:"@, height, ';');
    lemma_add_has_no("height:"@ + height, px, ';');
    lemma_pieces_append(t3, ';', part4);
    assert(pieces(t4, ';') =~= declarations(width, height, width, width, width).take(5));
}

proof fn lemma_last_declarations(
    head: Seq<char>,
    ink: Seq<char>,
    paper: Seq<char>,
    weight: Seq<char>,
)
    requires
        !ink.contains(';'),
        !paper.contains(';'),
        !weight.contains(';'),
    ensures
        ({
            let text = head + seq![';'] + "color:#"@ + ink + ";background-color:#"@ + paper
                + ";font-weight:"@ + weight
                + ";font-family:Arial,sans-serif;font-size:13px;white-space:pre-wrap;"@;
            pieces(text, ';') == pieces(head, ';') + declarations(ink, ink, ink, paper, weight).skip(
                5,
            )
        }),
{
    lemma_style_sizes();
    lemma_style_weights();
    lemma_style_endings();
    let semi = seq![';'];
    let part5 = "color:#"@ + ink;
    let part6 = "background-color:#"@ + paper;
    let part7 = "font-weight:"@ + weight;
    let t5 = head + semi + part5;
    let t6 = t5 + semi + part6;
    let t7 = t6 + semi + part7;
    let t8 = t7 + semi + "font-family:Arial,sans-serif"@;
    let t9 = t8 + semi + "font-size:13px"@;
    let t10 = t9 + semi + "white-space:pre-wrap"@;
    let t11 = t10 + semi + Seq::<char>::empty();
    let s5 = head + semi + "color:#"@ + ink + (semi + "background-color:#"@);
    assert(s5 =~= t5 + semi + "background-color:#"@);
    let s6 = t5 + semi + "background-color:#"@ + paper + (semi + "font-weight:"@);
    assert(s6 =~= t6 + semi + "font-weight:"@);
    let s7 = t6 + semi + "font-weight:"@ + weight;
    assert(s7 =~= t7);
    let ending = semi + "font-family:Arial,sans-serif"@ + semi + "font-size:13px"@ + semi
        + "white-space:pre-wrap"@ + semi;
    assert(t7 + ending =~= t11);
    lemma_add_has_no("color:#"@, ink, ';');
    lemma_pieces_append(head, ';', part5);
    lemma_add_has_no("background-color:#"@, paper, ';');
    lemma_pieces_append(t5, ';', part6);
    lemma_add_has_no("font-weight:"@, weight, ';');
    lemma_pieces_append(t6, ';', part7);
    lemma_pieces_append(t7, ';', "font-family:Arial,sans-serif"@);
    lemma_pieces_append(t8, ';', "font-size:13px"@);
    lemma_pieces_append(t9, ';', "white-space:pre-wrap"@);
    lemma_pieces_append(t10, ';', Seq::<char>::empty());
    assert(pieces(t11, ';') =~= pieces(head, ';') + declarations(ink, ink, ink, paper, weight).skip(
        5,
    ));
}

/// The style of a copied cell gives its size, its colors and its weight, each under its own
/// name.
pub proof fn copied_styles_describe_the_cell(cell: CellView, width: Seq<char>, height: Seq<char>)
    requires
        !width.contains(';'),
        !height.contains(';'),
        cell.style.text_color is Some ==> cell.style.text_color->0 <= 0xff_ff_ff,
        cell.style.background_color is Some ==> cell.style.background_color->0 <= 0xff_ff_ff,
    ensures
        ({
            let declared = pieces(html_cell_style(cell, width, height), ';');
            &&& declared.len() == 12
            &&& declared[2] == "min-width:"@ + width + "px"@
            &&& declared[3] == "width:"@ + width + "px"@
            &&& declared[4] == "height:"@ + height + "px"@
            &&& begins_with(declared[5], "color:#"@)
            &&& argb_color(declared[5].skip(7)) == match cell.style.text_color {
                Some(color) => Some(color),
                None => Some(DEFAULT_TEXT_COLOR),
            }
            &&& begins_with(declared[6], "background-color:#"@)
            &&& argb_color(declared[6].skip(18)) == match cell.style.background_color {
                Some(color) => Some(color),
                None => Some(DEFAULT_BACKGROUND_COLOR),
            }
            &&& cell.style.bold ==> declared[7] == "font-weight:bold"@
            &&& !cell.style.bold ==> declared[7] == "font-weight:normal"@
        }),
{
    let text_color = color_or(cell.style.text_color, DEFAULT_TEXT_COLOR);
    let background = color_or(cell.style.background_color, DEFAULT_BACKGROUND_COLOR);
    let (ink, paper) = (color_digits_text(text_color), color_digits_text(background));
    let weight = if cell.style.bold {
        "bold"@
    } else {
        "normal"@
    };
    written_colors_read_back(text_color, seq!['f', 'f']);
    written_colors_read_back(background, seq!['f', 'f']);
    lemma_color_has_no(text_color, ';');
    lemma_color_has_no(background, ';');
    lemma_style_sizes();
    lemma_style_weights();
    lemma_first_declarations(width, height);
    let opening = "border:1px solid #d9d9d9;padding:2px 8px;min-width:"@ + width + "px;width:"@
        + width + "px;height:"@ + height + "px;color:#"@;
    let head = choose|head: Seq<char>|
        opening == #[trigger] (head + seq![';'] + "color:#"@) && pieces(head, ';') == declarations(
            width,
            height,
            width,
            width,
            width,
        ).take(5);
    lemma_last_declarations(head, ink, paper, weight);
    let declared = pieces(html_cell_style(cell, width, height), ';');
    assert(declared[5] == "color:#"@ + ink);
    assert(declared[6] == "background-color:#"@ + paper);
    assert(declared[5].skip(7) =~= ink);
    assert(declared[5].take(7) =~= "color:#"@);
    assert(declared[6].skip(18) =~= paper);
    assert(declared[6].take(18) =~= "background-color:#"@);
}

/// The cells that are listed are those of the sheet row by row: each has its column's letters,
/// its row's number, its text, its colors, its weight and its size.
pub proof fn listed_cells_are_those_of_the_sheet(sheet: SheetView, rows: nat, row: int, col: int)
    requires
        0 <= row < rows,
        0 <= col < sheet.col_count,
        sheet.cell(row, col).style.text_color is Some ==> sheet.cell(row, col).style.text_color->0
            <= 0xff_ff_ff,
        sheet.cell(row, col).style.background_color is Some ==> sheet.cell(
            row,
            col,
        ).style.background_color->0 <= 0xff_ff_ff,
    ensures
        inspected_rows(sheet, rows).len() == rows * sheet.col_count,
        0 <= row * sheet.col_count + col < rows * sheet.col_count,
        ({
            let listed = inspected_rows(sheet, rows)[row * sheet.col_count + col];
            let cell = sheet.cell(row, col);
            &&& column_number(listed.x) == col + 1
            &&& listed.y == row + 1
            &&& listed.display_value == cell.value
            &&& argb_color(listed.fg) == match cell.style.text_color {
                Some(color) => Some(color),
                None => Some(DEFAULT_TEXT_COLOR),
            }
            &&& argb_color(listed.bg) == match cell.style.background_color {
                Some(color) => Some(color),
                None => Some(DEFAULT_BACKGROUND_COLOR),
            }
            &&& listed.bold == cell.style.bold
            &&& listed.width == sheet.column_width(col)
            &&& listed.height == sheet.row_height(row)
        }),
    decreases rows,
{
    let fewer = (rows - 1) as nat;
    let cols = sheet.col_count;
    lemma_listed_length(sheet, rows);
    lemma_listed_length(sheet, fewer);
    assert(rows * cols == fewer * cols + cols) by (nonlinear_arith)
        requires
            rows == fewer + 1,
    ;
    if row < fewer {
        listed_cells_are_those_of_the_sheet(sheet, fewer, row, col);
    } else {
        assert(row * cols == fewer * cols) by (nonlinear_arith)
            requires
                row == fewer,
        ;
        let cell = sheet.cell(row, col);
        column_name_spells_its_number(col as nat);
        written_colors_read_back(
            color_or(cell.style.text_color, DEFAULT_TEXT_COLOR),
            seq!['f', 'f'],
        );
        written_colors_read_back(
            color_or(cell.style.background_color, DEFAULT_BACKGROUND_COLOR),
            seq!['f', 'f'],
        );
        assert(inspected_rows(sheet, rows)[row * cols + col] == inspected_cell(sheet, row, col));
    }
}

proof fn lemma_listed_length(sheet: SheetView, rows: nat)
    ensures
        inspected_rows(sheet, rows).len() == rows * sheet.col_count,
    decreases rows,
{
    if rows > 0 {
        let fewer = (rows - 1) as nat;
        lemma_listed_length(sheet, fewer);
        assert(rows * sheet.col_count == fewer * sheet.col_count + sheet.col_count)
            by (nonlinear_arith)
            requires
                rows == fewer + 1,
        ;
    } else {
        assert(rows * sheet.col_count == 0) by (nonlinear_arith)
            requires
                rows == 0,
        ;
    }
}

proof fn lemma_row_numbers(sheet: SheetView, row: int, first: int, cols: nat)
    ensures
        row_numbers(sheet, row, first, cols) == Seq::new(
            cols,
            |i: int| sheet.number(row, first + i),
        ).filter(|number: Option<u64>| number is Some).map_values(|number: Option<u64>| number->0),
    decreases cols,
{
    reveal(Seq::filter);
    let is_there = |number: Option<u64>| number is Some;
    let value = |number: Option<u64>| number->0;
    let all = Seq::new(cols, |i: int| sheet.number(row, first + i));
    if cols > 0 {
        let fewer = (cols - 1) as nat;
        lemma_row_numbers(sheet, row, first, fewer);
        let before = Seq::new(fewer, |i: int| sheet.number(row, first + i));
        assert(all.drop_last() =~= before);
        assert(all.last() == sheet.number(row, first + cols - 1));
        if all.last() is Some {
            assert(before.filter(is_there).push(all.last()).map_values(value) =~= before.filter(
                is_there,
            ).map_values(value).push(all.last()->0));
        }
    } else {
        assert(all.filter(is_there).map_values(value) =~= Seq::<u64>::empty());
    }
}

/// A summary takes every number of the range once, row by row, and nothing else.
pub proof fn summaries_take_every_number_once(sheet: SheetView, range: CellRange, rows: nat)
    ensures
        range_numbers(sheet, range, rows) == Seq::new(
            rows,
            |r: int|
                Seq::new(
                    range.width(),
                    |i: int| sheet.number(range.top_row() + r, range.left_col() + i),
                ).filter(|number: Option<u64>| number is Some).map_values(
                    |number: Option<u64>| number->0,
                ),
        ).flatten(),
    decreases rows,
{
    let lists = Seq::new(
        rows,
        |r: int|
            Seq::new(
                range.width(),
                |i: int| sheet.number(range.top_row() + r, range.left_col() + i),
            ).filter(|number: Option<u64>| number is Some).map_values(
                |number: Option<u64>| number->0,
            ),
    );
    lists.lemma_flatten_and_flatten_alt_are_equivalent();
    if rows > 0 {
        let fewer = (rows - 1) as nat;
        summaries_take_every_number_once(sheet, range, fewer);
        lemma_row_numbers(
            sheet,
            range.top_row() + rows - 1,
            range.left_col() as int,
            range.width(),
        );
        let before = Seq::new(
            fewer,
            |r: int|
                Seq::new(
                    range.width(),
                    |i: int| sheet.number(range.top_row() + r, range.left_col() + i),
                ).filter(|number: Option<u64>| number is Some).map_values(
                    |number: Option<u64>| number->0,
                ),
        );
        assert(lists.drop_last() =~= before);
        before.lemma_flatten_and_flatten_alt_are_equivalent();
        let last = Seq::new(
            range.width(),
            |i: int| sheet.number(range.top_row() + (rows - 1), range.left_col() + i),
        );
        assert(Seq::new(
            range.width(),
            |i: int| sheet.number(range.top_row() + rows - 1, range.left_col() as int + i),
        ) =~= last);
        assert(lists.last() == last.filter(|number: Option<u64>| number is Some).map_values(
            |number: Option<u64>| number->0,
        ));
    }
}

/// A cell in XML holds two angle brackets that open a tag: between them stand its tag, with the
/// formula where it has one, and its text.
proof fn lemma_xml_cell(cell: CellView, col: int)
    requires
        0 <= col,
    ensures
        ({
            let parts = pieces(xml_cell(cell, col), '<');
            let name = ascii_lowered(column_letters(col as nat));
            let formula = match cell.active_formula() {
                Some(formula) => " formula=\""@ + escaped_xml_attr(without_equals(formula)) + seq![
                    '"',
                ],
                None => Seq::empty(),
            };
            &&& parts.len() == 3
            &&& parts[1] == name + formula + seq!['>'] + escaped_xml_text(cell.value)
        }),
{
    let name = ascii_lowered(column_letters(col as nat));
    let formula = match cell.active_formula() {
        Some(formula) => " formula=\""@ + escaped_xml_attr(without_equals(formula)) + seq!['"'],
        None => Seq::empty(),
    };
    let text = escaped_xml_text(cell.value);
    reveal_strlit("    <");
    reveal_strlit("</");
    reveal_strlit(">\n");
    reveal_strlit("    ");
    reveal_strlit(" formula=\"");
    lemma_column_tag(col as nat);
    escaped_text_stays_in_place(cell.value);
    assert(!formula.contains('<')) by {
        if let Some(written) = cell.active_formula() {
            escaped_text_stays_in_place(without_equals(written));
            lemma_add_has_no(" formula=\""@, escaped_xml_attr(without_equals(written)), '<');
            assert(!seq!['"'].contains('<'));
            lemma_add_has_no(
                " formula=\""@ + escaped_xml_attr(without_equals(written)),
                seq!['"'],
                '<',
            );
        }
    }
    let inner = name + formula + seq!['>'] + text;
    let closing = seq!['/'] + name + ">\n"@;
    lemma_add_has_no(name, formula, '<');
    assert(!seq!['>'].contains('<'));
    lemma_add_has_no(name + formula, seq!['>'], '<');
    lemma_add_has_no(name + formula + seq!['>'], text, '<');
    assert(!seq!['/'].contains('<'));
    assert(!">\n"@.contains('<'));
    lemma_add_has_no(seq!['/'], name, '<');
    lemma_add_has_no(seq!['/'] + name, ">\n"@, '<');
    let indent = "    "@;
    assert(!indent.contains('<'));
    lemma_pieces_single(indent, '<');
    lemma_pieces_append(indent, '<', inner);
    lemma_pieces_append(indent + seq!['<'] + inner, '<', closing);
    assert("    <"@ =~= indent + seq!['<']);
    assert("</"@ =~= seq!['<'] + seq!['/']);
    let opened = "    <"@ + name + formula + seq!['>'] + text;
    assert(opened =~= indent + seq!['<'] + inner);
    assert(xml_cell(cell, col) =~= opened + seq!['<'] + closing);
}

/// A column's tag is made of small letters.
proof fn lemma_column_tag(col: nat)
    ensures
        forall|i: int|
            0 <= i < ascii_lowered(column_letters(col)).len() ==> 'a' <= #[trigger] ascii_lowered(
                column_letters(col),
            )[i] <= 'z',
        !ascii_lowered(column_letters(col)).contains('<'),
        !ascii_lowered(column_letters(col)).contains('>'),
        !ascii_lowered(column_letters(col)).contains(' '),
{
    let letters = column_letters(col);
    column_name_spells_its_number(col);
    assert forall|i: int| 0 <= i < ascii_lowered(letters).len() implies 'a'
        <= #[trigger] ascii_lowered(letters)[i] <= 'z' by {
        lowering_changes_capitals_only(letters, i);
        assert('A' <= letters[i] <= 'Z');
    }
}

/// The pieces of a row in XML between the brackets that open a tag.
proof fn lemma_xml_row(sheet: SheetView, row: int, col: int)
    requires
        0 <= row,
    ensures
        ({
            let parts = pieces(xml_row(sheet, row), '<');
            &&& parts.len() == 2 * sheet.col_count + 3
            &&& begins_with(parts[1], "row_"@ + decimal((row + 1) as nat) + seq!['>'])
            &&& 0 <= col < sheet.col_count ==> parts[2 + 2 * col] == pieces(
                xml_cell(sheet.cell(row, col), col),
                '<',
            )[1]
        }),
{
    let tag = "row_"@ + decimal((row + 1) as nat);
    let cells = Seq::new(sheet.col_count, |col: int| xml_cell(sheet.cell(row, col), col));
    let inner = concatenated(cells);
    assert forall|i: int| 0 <= i < cells.len() implies pieces(#[trigger] cells[i], '<').len()
        == 3 by {
        lemma_xml_cell(sheet.cell(row, i), i);
    }
    lemma_counted_pieces(cells, '<', 2, col, 1);
    digits_denote_their_number((row + 1) as nat, 10);
    reveal_strlit("  <");
    reveal_strlit("  ");
    reveal_strlit(">\n");
    reveal_strlit("  </");
    reveal_strlit("row_");
    assert(!tag.contains('<')) by {
        let digits = decimal((row + 1) as nat);
        assert forall|i: int| 0 <= i < digits.len() implies digits[i] != '<' by {
            assert(is_digit_of(digits[i], 10));
        }
        lemma_add_has_no("row_"@, digits, '<');
    }
    assert(!">\n"@.contains('<'));
    assert(!"  "@.contains('<'));
    assert(!seq!['/'].contains('<'));
    let first = tag + ">\n"@;
    let last = seq!['/'] + tag + ">\n"@;
    lemma_add_has_no(tag, ">\n"@, '<');
    lemma_add_has_no(seq!['/'], tag, '<');
    lemma_add_has_no(seq!['/'] + tag, ">\n"@, '<');
    let head = "  "@ + seq!['<'] + first;
    let tail = "  "@ + seq!['<'] + last;
    lemma_pieces_single("  "@, '<');
    lemma_pieces_append("  "@, '<', first);
    lemma_pieces_append("  "@, '<', last);
    assert("  <"@ =~= "  "@ + seq!['<']);
    assert("  </"@ =~= "  "@ + seq!['<'] + seq!['/']);
    assert("  <"@ + tag + ">\n"@ =~= head);
    assert(xml_row(sheet, row) =~= head + inner + tail);
    lemma_pieces_sum(head, inner, '<');
    lemma_pieces_sum(head + inner, tail, '<');
    let parts = pieces(xml_row(sheet, row), '<');
    let two = pieces(head + inner, '<');
    assert(two[1] == first + pieces(inner, '<')[0]);
    assert(parts.len() == 2 * sheet.col_count + 3);
    let start = tag + seq!['>'];
    if sheet.col_count == 0 {
        assert(parts[1] == two[1] + "  "@);
    } else {
        assert(parts[1] == two[1]);
    }
    assert(parts[1].take(start.len() as int) =~= start);
    if 0 <= col < sheet.col_count {
        assert(parts[2 + 2 * col] == two[2 + 2 * col]);
        assert(two[2 + 2 * col] == pieces(inner, '<')[1 + 2 * col]);
    }
}

/// A sheet in XML reads back. Split where tags open, it has its own tag, then for each row the
/// row's tag, and in it for each column the column's tag with the formula where there is one,
/// and the cell's text.
pub proof fn sheets_in_xml_read_back(sheet: SheetView, row: int, col: int)
    requires
        0 <= row < sheet.row_count,
        0 <= col < sheet.col_count,
    ensures
        ({
            let parts = pieces(pretty_xml(sheet), '<');
            let row_parts = 2 * sheet.col_count + 2;
            let tags = parts[row * row_parts + 2];
            let part = parts[row * row_parts + 2 * col + 3];
            let name = ascii_lowered(column_letters(col as nat));
            let cell = sheet.cell(row, col);
            &&& parts.len() == sheet.row_count * row_parts + 3
            &&& begins_with(parts[1], "sheet name=\""@)
            &&& first_index(parts[1].skip(12), '"') is Some
            &&& unescaped(parts[1].skip(12).take(first_index(parts[1].skip(12), '"')->0))
                == sheet.name
            &&& begins_with(tags, "row_"@ + decimal((row + 1) as nat) + seq!['>'])
            &&& cell.active_formula() is None ==> begins_with(part, name.push('>')) && unescaped(
                part.skip(name.len() + 1int),
            ) == cell.value
            &&& cell.active_formula() matches Some(formula) ==> ({
                let rest = part.skip(name.len() + 10int);
                let end = first_index(rest, '"');
                &&& begins_with(part, name + " formula=\""@)
                &&& end is Some
                &&& unescaped(rest.take(end->0)) == if formula[0] == '=' {
                    formula.skip(1)
                } else {
                    formula
                }
                &&& rest[end->0 + 1] == '>'
                &&& unescaped(rest.skip(end->0 + 2)) == cell.value
            })
        }),
{
    let row_parts = (2 * sheet.col_count + 2) as nat;
    let rows = Seq::new(sheet.row_count, |row: int| xml_row(sheet, row));
    let inner = concatenated(rows);
    assert forall|i: int| 0 <= i < rows.len() implies pieces(#[trigger] rows[i], '<').len()
        == row_parts + 1 by {
        lemma_xml_row(sheet, i, 0);
    }
    lemma_xml_row(sheet, row, col);
    lemma_xml_cell(sheet.cell(row, col), col);
    lemma_counted_pieces(rows, '<', row_parts, row, 1);
    lemma_counted_pieces(rows, '<', row_parts, row, 2 + 2 * col);
    escaped_text_stays_in_place(sheet.name);
    escaping_is_undone_by_reading(sheet.name);
    reveal_strlit("<sheet name=\"");
    reveal_strlit("sheet name=\"");
    reveal_strlit("\">\n");
    reveal_strlit("</sheet>");
    reveal_strlit("/sheet>");
    let title = escaped_xml_attr(sheet.name);
    let opening = "sheet name=\""@ + title + "\">\n"@;
    let nothing = Seq::<char>::empty();
    assert(!"sheet name=\""@.contains('<'));
    assert(!"\">\n"@.contains('<'));
    assert(!"/sheet>"@.contains('<'));
    lemma_add_has_no("sheet name=\""@, title, '<');
    lemma_add_has_no("sheet name=\""@ + title, "\">\n"@, '<');
    assert(!nothing.contains('<'));
    lemma_pieces_single(nothing, '<');
    lemma_pieces_append(nothing, '<', opening);
    lemma_pieces_append(nothing, '<', "/sheet>"@);
    let head = nothing + seq!['<'] + opening;
    let tail = nothing + seq!['<'] + "/sheet>"@;
    assert("<sheet name=\""@ =~= seq!['<'] + "sheet name=\""@);
    assert("</sheet>"@ =~= tail);
    assert("<sheet name=\""@ + title + "\">\n"@ =~= head);
    assert(pretty_xml(sheet) =~= head + inner + tail);
    lemma_pieces_sum(head, inner, '<');
    lemma_pieces_sum(head + inner, tail, '<');
    let two = pieces(head + inner, '<');
    let parts = pieces(pretty_xml(sheet), '<');
    let at = row * row_parts;
    assert(at >= 0) by (nonlinear_arith)
        requires
            at == row * row_parts,
            row >= 0,
    ;
    assert(parts[at + 2] == two[at + 2] && two[at + 2] == pieces(inner, '<')[at + 1]);
    assert(parts[at + 2 * col + 3] == two[at + 2 * col + 3] && two[at + 2 * col + 3] == pieces(
        inner,
        '<',
    )[at + 2 + 2 * col]);
    assert(parts[1] == two[1] && two[1] == opening + pieces(inner, '<')[0]);
    let behind = parts[1].skip(12);
    assert(parts[1].take(12) =~= "sheet name=\""@);
    assert forall|i: int| 0 <= i < title.len() implies behind[i] != '"' by {
        assert(behind[i] == title[i]);
        assert(title.contains(title[i]));
    }
    assert(behind[title.len() as int] == '"');
    lemma_first_index_is(behind, '"', title.len() as int);
    assert(behind.take(title.len() as int) =~= title);
    lemma_xml_part_reads_back(sheet.cell(row, col), col);
}

proof fn lemma_xml_part_reads_back(cell: CellView, col: int)
    requires
        0 <= col,
    ensures
        ({
            let part = pieces(xml_cell(cell, col), '<')[1];
            let name = ascii_lowered(column_letters(col as nat));
            &&& cell.active_formula() is None ==> begins_with(part, name.push('>')) && unescaped(
                part.skip(name.len() + 1int),
            ) == cell.value
            &&& cell.active_formula() matches Some(formula) ==> ({
                let rest = part.skip(name.len() + 10int);
                let end = first_index(rest, '"');
                &&& begins_with(part, name + " formula=\""@)
                &&& end is Some
                &&& unescaped(rest.take(end->0)) == if formula[0] == '=' {
                    formula.skip(1)
                } else {
                    formula
                }
                &&& rest[end->0 + 1] == '>'
                &&& unescaped(rest.skip(end->0 + 2)) == cell.value
            })
        }),
{
    lemma_xml_cell(cell, col);
    let part = pieces(xml_cell(cell, col), '<')[1];
    let name = ascii_lowered(column_letters(col as nat));
    let text = escaped_xml_text(cell.value);
    escaping_is_undone_by_reading(cell.value);
    match cell.active_formula() {
        None => {
            assert(part.take(name.len() + 1int) =~= name.push('>'));
            assert(part.skip(name.len() + 1int) =~= text);
        },
        Some(formula) => {
            let written = escaped_xml_attr(without_equals(formula));
            let rest = part.skip(name.len() + 10int);
            escaping_is_undone_by_reading(without_equals(formula));
            escaped_text_stays_in_place(without_equals(formula));
            reveal_strlit(" formula=\"");
            assert(part.take(name.len() + 10int) =~= name + " formula=\""@);
            assert(rest =~= written + seq!['"'] + seq!['>'] + text);
            assert forall|i: int| 0 <= i < written.len() implies rest[i] != '"' by {
                assert(rest[i] == written[i]);
                assert(written.contains(written[i]));
            }
            lemma_first_index_is(rest, '"', written.len() as int);
            assert(rest.take(written.len() as int) =~= written);
            assert(rest.skip(written.len() + 2int) =~= text);
        },
    }
}

/// A tag's color is the one that its attribute was written with, also behind two characters for
/// the alpha channel; a tag without the attribute has none, and a value that is no color counts
/// for none.
pub proof fn colors_are_read_from_their_attribute(tag: XmlTagView, color: u32, alpha: Seq<char>)
    requires
        color <= 0xff_ff_ff,
        alpha.len() == 2,
        is_ascii_chars(alpha),
    ensures
        tag.attribute("rgb"@) == Ok::<Option<Seq<char>>, XlsxErrorView>(
            Some(color_digits_text(color)),
        ) ==> tag.color() == Ok::<Option<u32>, XlsxErrorView>(Some(color)),
        tag.attribute("rgb"@) == Ok::<Option<Seq<char>>, XlsxErrorView>(
            Some(alpha + color_digits_text(color)),
        ) ==> tag.color() == Ok::<Option<u32>, XlsxErrorView>(Some(color)),
        tag.attribute("rgb"@) == Ok::<Option<Seq<char>>, XlsxErrorView>(None) ==> tag.color()
            == Ok::<Option<u32>, XlsxErrorView>(None),
        tag.attribute("rgb"@) is Err ==> tag.color() is Err,
{
    written_colors_read_back(color, alpha);
}

} // verus!
