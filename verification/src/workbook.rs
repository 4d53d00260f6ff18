//! Workbooks: the sheets of one file.

use vstd::prelude::*;

use crate::cell::text_view;
use crate::export::{joined, lemma_pieces_append, lemma_pieces_single, strings_view};
use crate::lines::pieces;
use crate::merges::SheetFreeze;
use crate::numbers::{
    decimal, is_digit_of, parse_usize, parsed_number, parsed_up_to, push_decimal,
};
use crate::pixels::Pixels;
use crate::sheet::{SheetData, SheetView};
use crate::text::same_text;

verus! {

/// The sheets of one file.
pub struct WorkbookData {
    /// The file's name without its folder, where it has one that is text.
    pub file_name: Option<String>,
    pub sheets: Vec<SheetData>,
}

/// The content of a list of sheets.
pub open spec fn sheets_view(sheets: Seq<SheetData>) -> Seq<SheetView> {
    sheets.map_values(|sheet: SheetData| sheet@)
}

/// The index of the first sheet of the given name.
pub open spec fn index_of_name(sheets: Seq<SheetView>, name: Seq<char>) -> Option<usize>
    decreases sheets.len(),
{
    if sheets.len() == 0 {
        None
    } else {
        match index_of_name(sheets.drop_last(), name) {
            Some(index) => Some(index),
            None => if sheets.last().name == name {
                Some((sheets.len() - 1) as usize)
            } else {
                None
            },
        }
    }
}

/// The index of the sheet that a text means: the first sheet of that name, or
/// else the sheet of that number, counted from one.
pub open spec fn index_of_sheet(sheets: Seq<SheetView>, sheet: Seq<char>) -> Option<usize> {
    match index_of_name(sheets, sheet) {
        Some(index) => Some(index),
        None => match parsed_up_to(sheet, 10, usize::MAX as nat) {
            Some(number) => if 1 <= number <= sheets.len() {
                Some((number - 1) as usize)
            } else {
                None
            },
            None => None,
        },
    }
}

/// The names of sheets.
pub open spec fn names_of(sheets: Seq<SheetView>) -> Seq<Seq<char>> {
    sheets.map_values(|sheet: SheetView| sheet.name)
}

/// What is said where no sheet is meant by a text.
pub open spec fn missing_sheet_message(sheets: Seq<SheetView>, sheet: Seq<char>) -> Seq<char> {
    "sheet '"@ + sheet + "' not found; available sheets: "@ + joined(names_of(sheets), ", "@)
}

/// One line of the list of sheets: a sheet's number, a tab and its name.
pub open spec fn list_line(sheets: Seq<SheetView>, index: int) -> Seq<char> {
    decimal((index + 1) as nat) + seq!['\t'] + sheets[index].name
}

impl WorkbookData {
    /// The content of the sheets.
    pub open spec fn contents(self) -> Seq<SheetView> {
        sheets_view(self.sheets@)
    }

    /// The workbook of a file.
    pub fn new(file_name: Option<String>, sheets: Vec<SheetData>) -> (workbook: WorkbookData)
        ensures
            workbook.contents() == sheets_view(sheets@),
            text_view(workbook.file_name) == text_view(file_name),
    {
        WorkbookData { file_name, sheets }
    }

    /// A workbook that stands in for one that was given up: one empty sheet.
    pub fn placeholder() -> (workbook: WorkbookData)
        ensures
            workbook.file_name is None,
            workbook.contents().len() == 1,
            workbook.contents()[0].row_count == 0,
            workbook.contents()[0].col_count == 0,
    {
        let sheet = SheetData::from_source(
            None,
            0,
            0,
            Pixels { bits: 0 },
            Pixels { bits: 0 },
            SheetFreeze::default(),
        );
        let mut sheets: Vec<SheetData> = Vec::new();
        sheets.push(sheet);
        assert(sheets_view(sheets@)[0] == sheet@);
        WorkbookData { file_name: None, sheets }
    }

    /// How many sheets the workbook has.
    pub fn sheet_count(&self) -> (count: usize)
        ensures
            count == self.contents().len(),
    {
        self.sheets.len()
    }

    /// The sheet at an index; the first one where there is none.
    pub fn sheet(&self, sheet_ix: usize) -> (sheet: &SheetData)
        requires
            self.contents().len() > 0,
        ensures
            sheet@ == self.contents()[if sheet_ix < self.contents().len() {
                sheet_ix as int
            } else {
                0
            }],
            sheet@ == self.contents()[shown_index(sheet_ix as nat, self.contents().len())],
    {
        if sheet_ix < self.sheets.len() {
            &self.sheets[sheet_ix]
        } else {
            &self.sheets[0]
        }
    }

    /// The name of the sheet at an index; of the first one where there is none.
    pub fn sheet_name(&self, sheet_ix: usize) -> (name: &str)
        requires
            self.contents().len() > 0,
        ensures
            name@ == self.contents()[if sheet_ix < self.contents().len() {
                sheet_ix as int
            } else {
                0
            }].name,
    {
        self.sheet(sheet_ix).name()
    }

    /// The names of the sheets.
    pub fn sheet_names(&self) -> (names: Vec<String>)
        ensures
            strings_view(names@) == names_of(self.contents()),
    {
        let mut names: Vec<String> = Vec::new();
        let ghost all = names_of(self.contents());
        let mut index: usize = 0;
        assert(strings_view(names@) =~= all.take(0));
        while index < self.sheets.len()
            invariant
                index <= self.sheets@.len(),
                all == names_of(self.contents()),
                strings_view(names@) == all.take(index as int),
            decreases self.sheets@.len() - index,
        {
            let name = self.sheets[index].name.clone();
            let ghost before = names@;
            names.push(name);
            assert(strings_view(names@) =~= strings_view(before).push(name@));
            assert(all[index as int] == self.sheets@[index as int]@.name);
            index += 1;
            assert(strings_view(names@) =~= all.take(index as int));
        }
        assert(all.take(index as int) == all);
        names
    }

    /// The index of the sheet that a text means: by name, or else by its number
    /// counted from one.
    pub fn sheet_index(&self, sheet: &str) -> (index: Option<usize>)
        ensures
            index == index_of_sheet(self.contents(), sheet@),
    {
        let ghost contents = self.contents();
        let mut index: usize = 0;
        assert(contents.take(0) == Seq::<SheetView>::empty());
        while index < self.sheets.len()
            invariant
                index <= self.sheets@.len(),
                contents == self.contents(),
                index_of_name(contents.take(index as int), sheet@) is None,
            decreases self.sheets@.len() - index,
        {
            assert(contents.take(index + 1).drop_last() == contents.take(index as int));
            if same_text(self.sheets[index].name(), sheet) {
                proof {
                    lemma_index_of_name(contents, index + 1, sheet@);
                }
                return Some(index);
            }
            index += 1;
        }
        assert(contents.take(index as int) == contents);
        match parse_usize(sheet) {
            Some(number) => if 1 <= number && number <= self.sheets.len() {
                Some(number - 1)
            } else {
                None
            },
            None => None,
        }
    }

    /// The name that the workbook is displayed by.
    pub fn display_name(&self) -> (name: String)
        ensures
            name@ == match self.file_name {
                Some(name) => name@,
                None => "spreadsheet"@,
            },
    {
        match &self.file_name {
            Some(name) => name.clone(),
            None => "spreadsheet".to_owned(),
        }
    }

    /// The sheet that is asked for: the first where none is named.
    pub fn resolve_sheet(&self, sheet: Option<&str>) -> (index: Result<usize, String>)
        ensures
            match (sheet, index) {
                (None, index) => index == Ok::<usize, String>(0),
                (Some(sheet), Ok(index)) => index_of_sheet(self.contents(), sheet@) == Some(index),
                (Some(sheet), Err(message)) => index_of_sheet(self.contents(), sheet@) is None
                    && message@ == missing_sheet_message(self.contents(), sheet@),
            },
    {
        let sheet = match sheet {
            None => {
                return Ok(0);
            },
            Some(sheet) => sheet,
        };
        match self.sheet_index(sheet) {
            Some(index) => Ok(index),
            None => {
                let mut message = "sheet '".to_owned();
                message.push_str(sheet);
                message.push_str("' not found; available sheets: ");
                let names = self.sheet_names();
                push_joined(&mut message, &names, ", ");
                Err(message)
            },
        }
    }

    /// The list of sheets: one line for each, with its number and its name.
    pub fn sheet_list(&self) -> (lines: Vec<String>)
        ensures
            lines@.len() == self.contents().len(),
            forall|index: int|
                0 <= index < lines@.len() ==> (#[trigger] lines@[index])@ == list_line(
                    self.contents(),
                    index,
                ),
    {
        let mut lines: Vec<String> = Vec::new();
        let mut index: usize = 0;
        while index < self.sheets.len()
            invariant
                index <= self.sheets@.len(),
                lines@.len() == index,
                forall|i: int|
                    0 <= i < index ==> (#[trigger] lines@[i])@ == list_line(self.contents(), i),
            decreases self.sheets@.len() - index,
        {
            let mut line = String::new();
            push_decimal(&mut line, (index + 1) as u64);
            line.push('\t');
            line.push_str(self.sheets[index].name());
            assert(line@ =~= list_line(self.contents(), index as int));
            lines.push(line);
            index += 1;
        }
        lines
    }
}

/// Appends texts with a separator between them.
pub fn push_joined(target: &mut String, parts: &Vec<String>, separator: &str)
    ensures
        final(target)@ == old(target)@ + joined(strings_view(parts@), separator@),
{
    let ghost before = target@;
    let ghost views = strings_view(parts@);
    let mut index: usize = 0;
    assert(views.take(0) == Seq::<Seq<char>>::empty());
    while index < parts.len()
        invariant
            index <= parts@.len(),
            views == strings_view(parts@),
            target@ == before + joined(views.take(index as int), separator@),
        decreases parts@.len() - index,
    {
        proof {
            assert(views.take(index + 1).drop_last() == views.take(index as int));
            assert(views.take(index + 1).last() == views[index as int]);
        }
        if index > 0 {
            target.push_str(separator);
        }
        target.push_str(parts[index].as_str());
        index += 1;
        assert(target@ =~= before + joined(views.take(index as int), separator@));
    }
    assert(views.take(index as int) == views);
}

/// A sheet found in a part of the list is found in the whole.
proof fn lemma_index_of_name(sheets: Seq<SheetView>, length: int, name: Seq<char>)
    requires
        0 <= length <= sheets.len(),
        index_of_name(sheets.take(length), name) is Some,
    ensures
        index_of_name(sheets, name) == index_of_name(sheets.take(length), name),
    decreases sheets.len() - length,
{
    if length == sheets.len() {
        assert(sheets.take(length) == sheets);
    } else {
        assert(sheets.take(length + 1).drop_last() == sheets.take(length));
        lemma_index_of_name(sheets, length + 1, name);
    }
}

proof fn lemma_first_name(sheets: Seq<SheetView>, name: Seq<char>)
    requires
        sheets.len() <= usize::MAX,
    ensures
        match index_of_name(sheets, name) {
            Some(index) => index < sheets.len() && sheets[index as int].name == name && (forall|
                i: int,
            |
                0 <= i < index ==> (#[trigger] sheets[i]).name != name),
            None => forall|i: int| 0 <= i < sheets.len() ==> (#[trigger] sheets[i]).name != name,
        },
    decreases sheets.len(),
{
    if sheets.len() > 0 {
        let earlier = sheets.drop_last();
        lemma_first_name(earlier, name);
        assert(forall|i: int| 0 <= i < earlier.len() ==> earlier[i] == sheets[i]);
    }
}

/// A sheet is found by its name before any number is considered, and a number
/// that is no sheet's name finds the sheet of that number, counted from one.
pub proof fn sheets_are_found_by_name_then_number(sheets: Seq<SheetView>, index: int)
    requires
        0 <= index < sheets.len() <= usize::MAX,
    ensures
        ({
            let found = index_of_sheet(sheets, sheets[index].name);
            found is Some && found->0 <= index && sheets[found->0 as int].name
                == sheets[index].name
        }),
        index_of_name(sheets, decimal((index + 1) as nat)) is None ==> index_of_sheet(
            sheets,
            decimal((index + 1) as nat),
        ) == Some(index as usize),
{
    lemma_first_name(sheets, sheets[index].name);
    crate::numbers::decimal_text_reads_back((index + 1) as nat);
}

/// A line of the list of sheets has the sheet's number, counted from one, and its name, with a
/// tab between them.
pub proof fn listed_sheets_have_number_and_name(sheets: Seq<SheetView>, index: int)
    requires
        0 <= index < sheets.len(),
        !sheets[index].name.contains('\t'),
    ensures
        pieces(list_line(sheets, index), '\t').len() == 2,
        parsed_number(pieces(list_line(sheets, index), '\t')[0], 10) == Some((index + 1) as nat),
        pieces(list_line(sheets, index), '\t')[1] == sheets[index].name,
{
    let digits = decimal((index + 1) as nat);
    crate::numbers::decimal_text_reads_back((index + 1) as nat);
    crate::numbers::digits_denote_their_number((index + 1) as nat, 10);
    assert(!digits.contains('\t')) by {
        assert forall|i: int| 0 <= i < digits.len() implies digits[i] != '\t' by {
            assert(is_digit_of(digits[i], 10));
        }
    }
    lemma_pieces_single(digits, '\t');
    lemma_pieces_append(digits, '\t', sheets[index].name);
    assert(seq![digits].push(sheets[index].name) =~= seq![digits, sheets[index].name]);
}

/// A sheet that is not there is found neither by a name that no sheet has nor by a number beyond
/// the sheets; a number finds no sheet where it is zero.
pub proof fn unknown_sheets_are_not_found(sheets: Seq<SheetView>, sheet: Seq<char>)
    requires
        sheets.len() <= usize::MAX,
        forall|i: int| 0 <= i < sheets.len() ==> (#[trigger] sheets[i]).name != sheet,
    ensures
        parsed_number(sheet, 10) is None ==> index_of_sheet(sheets, sheet) is None,
        parsed_number(sheet, 10) == Some(0nat) ==> index_of_sheet(sheets, sheet) is None,
        parsed_number(sheet, 10) is Some && parsed_number(sheet, 10)->0 > sheets.len()
            ==> index_of_sheet(sheets, sheet) is None,
{
    lemma_first_name(sheets, sheet);
}

/// What is said of a sheet that is not found names the sheet, and then all sheets that there are
/// in their order, with a comma and a space between them.
pub proof fn missing_sheets_are_named(sheets: Seq<SheetView>, sheet: Seq<char>)
    ensures
        ({
            let message = missing_sheet_message(sheets, sheet);
            let list = message.skip(38 + sheet.len() as int);
            &&& message.subrange(7, 7 + sheet.len() as int) == sheet
            &&& list == joined(sheets.map_values(|sheet: SheetView| sheet.name), seq![',', ' '])
        }),
{
    reveal_strlit("sheet '");
    reveal_strlit("' not found; available sheets: ");
    reveal_strlit(", ");
    assert(", "@ =~= seq![',', ' ']);
    let message = missing_sheet_message(sheets, sheet);
    let list = joined(names_of(sheets), ", "@);
    assert(message.subrange(7, 7 + sheet.len() as int) =~= sheet);
    assert(message.skip(38 + sheet.len() as int) =~= list);
}

/// The index of the sheet that is shown for an index.
pub open spec fn shown_index(sheet: nat, count: nat) -> int {
    if sheet < count {
        sheet as int
    } else {
        0
    }
}

/// Every index shows a sheet: its own where there is one, and else the first.
pub proof fn every_index_shows_a_sheet(sheet: nat, count: nat)
    requires
        count > 0,
    ensures
        0 <= shown_index(sheet, count) < count,
        sheet < count ==> shown_index(sheet, count) == sheet,
        sheet >= count ==> shown_index(sheet, count) == 0,
{
}

} // verus!
