//! Number formats: which display format a format code asks for, and how a
//! number's digits are dressed in it.

use vstd::prelude::*;

use crate::numbers::{
    add_grouping, grouped, grouping_keeps_the_characters, grouping_places_commas,
};
use crate::text::{
    contains_char, find_from, first_index, lemma_first_index, lemma_first_index_is, text_from,
    to_chars,
};

verus! {

/// How a number cell is displayed.
#[derive(Debug, Clone, Copy, PartialEq, Eq, Structural)]
pub enum CellDisplayFormat {
    Currency { decimals: usize },
    Percentage { decimals: usize },
}

/// The part of a text before the first `separator`, or all of it.
pub open spec fn before_first(text: Seq<char>, separator: char) -> Seq<char> {
    match first_index(text, separator) {
        Some(index) => text.take(index),
        None => text,
    }
}

/// How many digit placeholders a text begins with.
pub open spec fn placeholder_run(text: Seq<char>) -> nat
    decreases text.len(),
{
    if text.len() > 0 && (text[0] == '0' || text[0] == '#') {
        1 + placeholder_run(text.skip(1))
    } else {
        0
    }
}

/// The number of decimals that a format code asks for: the placeholders behind
/// the first point of its first section.
pub open spec fn format_decimals_spec(format_code: Seq<char>) -> nat {
    let section = before_first(format_code, ';');
    match first_index(section, '.') {
        Some(index) => placeholder_run(section.skip(index + 1)),
        None => 0,
    }
}

/// The display format that a format code asks for.
pub open spec fn display_format_of(format_code: Seq<char>) -> Option<CellDisplayFormat> {
    let decimals = format_decimals_spec(format_code) as usize;
    if format_code.contains('%') {
        Some(CellDisplayFormat::Percentage { decimals })
    } else if format_code.contains('$') {
        Some(CellDisplayFormat::Currency { decimals })
    } else {
        None
    }
}

/// Whether a format code shows percentages.
pub fn is_percentage_format(format_code: &str) -> (is: bool)
    ensures
        is == format_code@.contains('%'),
{
    contains_char(format_code, '%')
}

/// Whether a format code shows dollar amounts.
pub fn is_dollar_format(format_code: &str) -> (is: bool)
    ensures
        is == format_code@.contains('$'),
{
    contains_char(format_code, '$')
}

/// The number of decimals that a format code asks for.
pub fn format_decimals(format_code: &str) -> (decimals: usize)
    ensures
        decimals == format_decimals_spec(format_code@),
{
    let chars = to_chars(format_code);
    let section_end: usize = find_from(&chars, 0, ';');
    let dot: usize = find_from(&chars, 0, '.');
    let ghost section = before_first(chars@, ';');
    proof {
        lemma_first_index(chars@, ';');
        if section_end < chars@.len() {
            lemma_first_index_is(chars@, ';', section_end as int);
        }
        assert(section == chars@.take(section_end as int));
        lemma_first_index(section, '.');
        if dot < section_end {
            assert(section[dot as int] == '.');
            lemma_first_index_is(section, '.', dot as int);
        }
    }
    if dot >= section_end {
        return 0;
    }
    let start: usize = dot + 1;
    let mut end: usize = start;
    let ghost tail = section.skip(start as int);
    while end < section_end && (chars[end] == '0' || chars[end] == '#')
        invariant
            start <= end <= section_end <= chars@.len(),
            section == chars@.take(section_end as int),
            tail == section.skip(start as int),
            placeholder_run(tail) == (end - start) + placeholder_run(section.skip(end as int)),
        decreases section_end - end,
    {
        assert(section.skip(end as int).skip(1) == section.skip(end + 1));
        end += 1;
    }
    assert(section.skip(end as int).len() > 0 ==> section.skip(end as int)[0] == chars@[end as int]);
    end - start
}

/// A number written out in one [`NumberLayout`], before its display format
/// dresses it up.
///
/// `negative` is the number's sign bit and `digits` its text in the layout.
pub struct NumberText {
    pub negative: bool,
    pub digits: String,
}

/// What has to be known of a number's digits to display it.
#[derive(Debug, Clone, Copy, PartialEq, Eq, Structural)]
pub enum NumberLayout {
    /// The shortest text that denotes the number.
    Plain,
    /// The magnitude with a fixed number of decimals.
    Fixed { decimals: usize },
    /// A hundred times the number, signed, with a fixed number of decimals.
    Percent { decimals: usize },
}

/// A dollar amount made of a sign, the digits before the point and those behind.
pub open spec fn currency_text(negative: bool, digits: Seq<char>, decimals: nat) -> Seq<char> {
    let sign = if negative {
        seq!['-', '$']
    } else {
        seq!['$']
    };
    let whole = sign + grouped(before_first(digits, '.'));
    if decimals == 0 {
        whole
    } else {
        let fraction = match first_index(digits, '.') {
            Some(index) => digits.skip(index + 1),
            None => Seq::<char>::empty(),
        };
        whole + seq!['.'] + fraction
    }
}

/// A number's display text in a display format.
pub open spec fn number_display(
    format: CellDisplayFormat,
    negative: bool,
    digits: Seq<char>,
) -> Seq<char> {
    match format {
        CellDisplayFormat::Currency { decimals } => currency_text(
            negative,
            digits,
            decimals as nat,
        ),
        CellDisplayFormat::Percentage { decimals } => digits + seq!['%'],
    }
}

/// Writes a dollar amount: sign, dollar sign, grouped whole part, fraction.
pub fn format_currency(value: &NumberText, decimals: usize) -> (text: String)
    ensures
        text@ == currency_text(value.negative, value.digits@, decimals as nat),
{
    let chars = to_chars(value.digits.as_str());
    let dot: usize = find_from(&chars, 0, '.');
    proof {
        lemma_first_index(chars@, '.');
        if dot < chars@.len() {
            lemma_first_index_is(chars@, '.', dot as int);
        }
        assert(chars@.take(chars@.len() as int) == chars@);
    }
    let whole = add_grouping(text_from(&chars, 0, dot).as_str());
    assert(chars@.subrange(0, dot as int) == before_first(chars@, '.'));
    let mut text = String::new();
    if value.negative {
        text.push('-');
    }
    text.push('$');
    text.push_str(whole.as_str());
    if decimals != 0 {
        text.push('.');
        if dot < chars.len() {
            let fraction = text_from(&chars, dot + 1, chars.len());
            assert(fraction@ == chars@.skip(dot + 1));
            text.push_str(fraction.as_str());
        }
    }
    text
}

/// Writes a percentage.
pub fn format_percentage(value: &NumberText) -> (text: String)
    ensures
        text@ == value.digits@ + seq!['%'],
{
    let mut text = value.digits.clone();
    text.push('%');
    text
}

impl CellDisplayFormat {
    /// The display format that a format code asks for, if it is one that is
    /// displayed specially: percentages first, then dollar amounts.
    pub fn from_format_code(format_code: &str) -> (format: Option<CellDisplayFormat>)
        ensures
            format == display_format_of(format_code@),
    {
        if is_percentage_format(format_code) {
            return Some(CellDisplayFormat::Percentage { decimals: format_decimals(format_code) });
        }
        if is_dollar_format(format_code) {
            return Some(CellDisplayFormat::Currency { decimals: format_decimals(format_code) });
        }
        None
    }

    /// The digits that this format needs of a number.
    pub open spec fn layout_spec(self) -> NumberLayout {
        match self {
            CellDisplayFormat::Currency { decimals } => NumberLayout::Fixed { decimals },
            CellDisplayFormat::Percentage { decimals } => NumberLayout::Percent { decimals },
        }
    }

    /// The digits that this format needs of a number.
    pub fn layout(&self) -> (layout: NumberLayout)
        ensures
            layout == self.layout_spec(),
    {
        match *self {
            CellDisplayFormat::Currency { decimals } => NumberLayout::Fixed { decimals },
            CellDisplayFormat::Percentage { decimals } => NumberLayout::Percent { decimals },
        }
    }

    /// The display text of a number whose digits are given in this format's
    /// layout.
    pub fn format_number(&self, value: &NumberText) -> (text: String)
        ensures
            text@ == number_display(*self, value.negative, value.digits@),
    {
        match *self {
            CellDisplayFormat::Currency { decimals } => format_currency(value, decimals),
            CellDisplayFormat::Percentage { decimals } => format_percentage(value),
        }
    }
}

/// A format code with a percent sign asks for percentages, one with a dollar sign and
/// without a percent sign for dollar amounts, and any other for neither.
pub proof fn signs_choose_the_display_format(format_code: Seq<char>)
    ensures
        (display_format_of(format_code) matches Some(CellDisplayFormat::Percentage { .. }))
            <==> format_code.contains('%'),
        (display_format_of(format_code) matches Some(CellDisplayFormat::Currency { .. }))
            <==> format_code.contains('$') && !format_code.contains('%'),
{
}

/// Whether a text is digit placeholders only.
pub open spec fn are_placeholders(text: Seq<char>) -> bool {
    forall|i: int| 0 <= i < text.len() ==> #[trigger] text[i] == '0' || text[i] == '#'
}

proof fn lemma_placeholder_run(digits: Seq<char>, tail: Seq<char>)
    requires
        are_placeholders(digits),
        tail.len() > 0 ==> tail[0] != '0' && tail[0] != '#',
    ensures
        placeholder_run(digits + tail) == digits.len(),
    decreases digits.len(),
{
    if digits.len() > 0 {
        let rest = digits.skip(1);
        assert forall|i: int| 0 <= i < rest.len() implies #[trigger] rest[i] == '0' || rest[i]
            == '#' by {
            assert(digits[i + 1] == rest[i]);
        }
        lemma_placeholder_run(rest, tail);
        assert((digits + tail).skip(1) == rest + tail);
        assert((digits + tail)[0] == digits[0]);
    } else {
        assert(digits + tail == tail);
    }
}

/// As many decimals are displayed as there are placeholders behind the point: whatever
/// stands before the point, and whatever follows the placeholders. Other sections do not
/// count.
pub proof fn placeholders_are_decimals(head: Seq<char>, digits: Seq<char>, tail: Seq<char>)
    requires
        !head.contains('.'),
        !head.contains(';'),
        are_placeholders(digits),
        tail.len() > 0 ==> tail[0] != '0' && tail[0] != '#',
    ensures
        format_decimals_spec(head + seq!['.'] + digits + tail) == digits.len(),
        format_decimals_spec(head) == 0,
        format_decimals_spec(head + seq![';'] + tail) == 0,
{
    let code = head + seq!['.'] + digits + tail;
    let section = before_first(code, ';');
    lemma_first_index(code, ';');
    lemma_first_index(tail, ';');
    let front = head.len() + 1 + digits.len();
    let rest = before_first(tail, ';');
    assert forall|i: int| 0 <= i < front implies code[i] != ';' by {
        if i < head.len() {
            assert(head.contains(head[i]));
        } else if i > head.len() {
            assert(code[i] == digits[i - head.len() - 1]);
        }
    }
    if tail.contains(';') {
        let at = first_index(tail, ';')->0;
        assert forall|i: int| 0 <= i < front + at implies code[i] != ';' by {
            if i >= front {
                assert(code[i] == tail[i - front]);
            }
        }
        assert(code[front + at] == ';');
        lemma_first_index_is(code, ';', front + at);
        assert(section =~= head + seq!['.'] + digits + rest);
    } else {
        assert forall|i: int| 0 <= i < code.len() implies code[i] != ';' by {
            if i >= front {
                assert(tail.contains(tail[i - front]));
            }
        }
        assert(!code.contains(';'));
        assert(section =~= head + seq!['.'] + digits + rest);
    }
    assert(section[head.len() as int] == '.');
    assert forall|i: int| 0 <= i < head.len() implies section[i] != '.' by {
        assert(head.contains(head[i]));
    }
    lemma_first_index_is(section, '.', head.len() as int);
    assert(section.skip(head.len() as int + 1) =~= digits + rest);
    lemma_placeholder_run(digits, rest);
    lemma_first_index(head, ';');
    lemma_first_index(head, '.');
    let sections = head + seq![';'] + tail;
    assert(sections[head.len() as int] == ';');
    assert forall|i: int| 0 <= i < head.len() implies sections[i] != ';' by {
        assert(head.contains(head[i]));
    }
    lemma_first_index_is(sections, ';', head.len() as int);
    assert(sections.take(head.len() as int) == head);
}

/// A percentage is displayed by its digits and a percent sign behind them.
pub proof fn percentages_end_in_a_percent_sign(decimals: usize, negative: bool, digits: Seq<char>)
    ensures
        ({
            let text = number_display(
                CellDisplayFormat::Percentage { decimals },
                negative,
                digits,
            );
            text.len() == digits.len() + 1 && text.last() == '%' && text.drop_last() == digits
        }),
{
    assert((digits + seq!['%']).drop_last() == digits);
}

proof fn lemma_without_commas(text: Seq<char>)
    requires
        !text.contains(','),
    ensures
        text.filter(|ch: char| ch != ',') == text,
    decreases text.len(),
{
    reveal(Seq::filter);
    if text.len() > 0 {
        let shorter = text.drop_last();
        assert forall|i: int| 0 <= i < shorter.len() implies shorter[i] != ',' by {
            assert(text.contains(text[i]));
        }
        lemma_without_commas(shorter);
        assert(text.contains(text.last()));
        assert(shorter.push(text.last()) == text);
    }
}

/// A dollar amount is displayed by a minus sign if it is negative, a dollar sign, and its
/// digits with commas among them: without the commas these are the digits as they were
/// written out. Each comma has a multiple of three digits between it and the point.
pub proof fn amounts_keep_their_digits(decimals: usize, negative: bool, digits: Seq<char>)
    requires
        !digits.contains(','),
        digits.contains('.') <==> decimals > 0,
    ensures
        ({
            let text = number_display(CellDisplayFormat::Currency { decimals }, negative, digits);
            let sign: int = if negative {
                2
            } else {
                1
            };
            &&& text.len() >= sign
            &&& text[sign - 1] == '$'
            &&& negative ==> text[0] == '-'
            &&& text.skip(sign).filter(|ch: char| ch != ',') == digits
            &&& before_first(text, '.').len() >= sign
            &&& forall|i: int|
                sign <= i < before_first(text, '.').len() ==> (#[trigger] text[i] == ','
                    <==> (before_first(text, '.').len() - i) % 4 == 0)
        }),
{
    let keep = |ch: char| ch != ',';
    let text = number_display(CellDisplayFormat::Currency { decimals }, negative, digits);
    let prefix = if negative {
        seq!['-', '$']
    } else {
        seq!['$']
    };
    let whole = before_first(digits, '.');
    lemma_first_index(digits, '.');
    assert forall|i: int| 0 <= i < whole.len() implies whole[i] != ',' by {
        assert(digits.contains(digits[i]));
    }
    assert(!whole.contains(','));
    grouping_keeps_the_characters(whole);
    let group = grouped(whole);
    assert forall|i: int| 0 <= i < group.len() implies group[i] != '.' by {
        if group[i] == '.' {
            lemma_grouped_from(whole, i);
            assert(whole.contains('.'));
            let j = choose|j: int| 0 <= j < whole.len() && whole[j] == '.';
            assert(digits[j] == '.');
        }
    }
    assert forall|i: int| 0 <= i < group.len() implies (#[trigger] group[i] == ',' <==> (group.len()
        - i) % 4 == 0) by {
        grouping_places_commas(whole, i);
    }
    if decimals == 0 {
        assert(whole == digits);
        assert(text.skip(prefix.len() as int) =~= group);
        lemma_first_index(text, '.');
        assert forall|i: int| 0 <= i < text.len() implies text[i] != '.' by {
            if i >= prefix.len() {
                assert(text[i] == group[i - prefix.len()]);
            }
        }
        assert(before_first(text, '.') == text);
    } else {
        let at = first_index(digits, '.')->0;
        let fraction = digits.skip(at + 1);
        let point = seq!['.'];
        assert(text.skip(prefix.len() as int) =~= group + (point + fraction));
        assert forall|i: int| 0 <= i < (point + fraction).len() implies (point + fraction)[i] != ',' by {
            if i > 0 {
                assert(digits.contains(digits[at + i]));
            }
        }
        lemma_without_commas(point + fraction);
        Seq::filter_distributes_over_add(group, point + fraction, keep);
        assert(whole + (point + fraction) =~= digits);
        let end = prefix.len() + group.len();
        assert(text[end as int] == '.');
        assert forall|i: int| 0 <= i < end implies text[i] != '.' by {
            if i >= prefix.len() {
                assert(text[i] == group[i - prefix.len()]);
            }
        }
        lemma_first_index_is(text, '.', end as int);
        assert(before_first(text, '.') == text.take(end as int));
    }
    assert forall|i: int| prefix.len() <= i < before_first(text, '.').len() implies (
    #[trigger] text[i] == ',' <==> (before_first(text, '.').len() - i) % 4 == 0) by {
        assert(text[i] == group[i - prefix.len()]);
    }
}

/// What is not a comma in a grouped text is from the text.
proof fn lemma_grouped_from(text: Seq<char>, index: int)
    requires
        0 <= index < grouped(text).len(),
        grouped(text)[index] != ',',
    ensures
        text.contains(grouped(text)[index]),
    decreases text.len(),
{
    if text.len() <= 3 {
        assert(text.contains(text[index]));
    } else {
        let head = text.take(text.len() - 3);
        let split = grouped(head).len();
        if index < split {
            lemma_grouped_from(head, index);
            let j = choose|j: int| 0 <= j < head.len() && head[j] == grouped(head)[index];
            assert(text[j] == grouped(text)[index]);
        } else {
            assert(grouped(text)[index] == text[text.len() - 3 + (index - split - 1)]);
        }
    }
}

/// The format that a code asks for has as many decimals as the code has placeholders behind the
/// point, percentages and dollar amounts alike.
pub proof fn formats_have_the_decimals_of_their_code(
    head: Seq<char>,
    digits: Seq<char>,
    tail: Seq<char>,
)
    requires
        !head.contains('.'),
        !head.contains(';'),
        are_placeholders(digits),
        digits.len() <= usize::MAX,
        tail.len() > 0 ==> tail[0] != '0' && tail[0] != '#',
    ensures
        ({
            let code = head + seq!['.'] + digits + tail;
            &&& code.contains('%') ==> display_format_of(code) == Some(
                CellDisplayFormat::Percentage { decimals: digits.len() as usize },
            )
            &&& code.contains('$') && !code.contains('%') ==> display_format_of(code) == Some(
                CellDisplayFormat::Currency { decimals: digits.len() as usize },
            )
            &&& head.contains('%') ==> display_format_of(head) == Some(
                CellDisplayFormat::Percentage { decimals: 0 },
            )
            &&& head.contains('$') && !head.contains('%') ==> display_format_of(head) == Some(
                CellDisplayFormat::Currency { decimals: 0 },
            )
        }),
{
    placeholders_are_decimals(head, digits, tail);
}

} // verus!
