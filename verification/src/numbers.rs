//! Numbers as text: positional digits, padding, digit grouping and the grammar
//! of floating-point literals.

use vstd::prelude::*;

use crate::text::{
    ascii_lowered, lower_text, lowering_changes_capitals_only, same_text, text_from, to_chars,
};

verus! {

/// The character that stands for the digit `value` in bases up to sixteen.
pub open spec fn digit_char_spec(value: nat) -> char {
    if value < 10 {
        ('0' as u32 + value) as char
    } else {
        ('a' as u32 + (value - 10)) as char
    }
}

/// The value of a digit character, letters counting from ten in either case.
pub open spec fn digit_value_spec(ch: char) -> Option<nat> {
    if '0' <= ch <= '9' {
        Some((ch as u32 - '0' as u32) as nat)
    } else if 'a' <= ch <= 'z' {
        Some((ch as u32 - 'a' as u32 + 10) as nat)
    } else if 'A' <= ch <= 'Z' {
        Some((ch as u32 - 'A' as u32 + 10) as nat)
    } else {
        None
    }
}

/// Whether a character is a digit of the given base.
pub open spec fn is_digit_of(ch: char, base: nat) -> bool {
    digit_value_spec(ch) matches Some(value) && value < base
}

/// The digits of `number` in the given base, most significant first, without
/// leading zeros.
pub open spec fn digits_of(number: nat, base: nat) -> Seq<char>
    decreases number via digits_of_shrinks
{
    if base < 2 || number < base {
        seq![digit_char_spec(number)]
    } else {
        digits_of(number / base, base).push(digit_char_spec(number % base))
    }
}

#[via_fn]
proof fn digits_of_shrinks(number: nat, base: nat) {
    if 2 <= base <= number {
        assert(number / base < number) by (nonlinear_arith)
            requires
                2 <= base <= number,
        ;
    }
}

/// The decimal text of a number.
pub open spec fn decimal(number: nat) -> Seq<char> {
    digits_of(number, 10)
}

/// The value that a run of digits denotes in the given base.
pub open spec fn digits_value(digits: Seq<char>, base: nat) -> nat
    decreases digits.len(),
{
    if digits.len() == 0 {
        0
    } else {
        digits_value(digits.drop_last(), base) * base
            + digit_value_spec(digits.last()).unwrap_or(0)
    }
}

/// Whether every character is a digit of the given base.
pub open spec fn all_digits(digits: Seq<char>, base: nat) -> bool {
    forall|i: int| 0 <= i < digits.len() ==> is_digit_of(#[trigger] digits[i], base)
}

/// A text without one leading plus sign.
pub open spec fn without_plus(text: Seq<char>) -> Seq<char> {
    if text.len() > 0 && text[0] == '+' {
        text.skip(1)
    } else {
        text
    }
}

/// The number that a text denotes in the given base: an optional plus sign and
/// at least one digit, nothing else.
pub open spec fn parsed_number(text: Seq<char>, base: nat) -> Option<nat> {
    let digits = without_plus(text);
    if digits.len() > 0 && all_digits(digits, base) {
        Some(digits_value(digits, base))
    } else {
        None
    }
}

/// The number that a text denotes, if it does not exceed `max`.
pub open spec fn parsed_up_to(text: Seq<char>, base: nat, max: nat) -> Option<nat> {
    match parsed_number(text, base) {
        Some(number) => if number <= max {
            Some(number)
        } else {
            None
        },
        None => None,
    }
}

/// A text filled up on the left with zeros to at least `width` characters.
pub open spec fn zero_padded(text: Seq<char>, width: nat) -> Seq<char> {
    if text.len() >= width {
        text
    } else {
        Seq::new((width - text.len()) as nat, |i: int| '0') + text
    }
}

/// A text with a comma before every third character from the right.
pub open spec fn grouped(text: Seq<char>) -> Seq<char>
    decreases text.len(),
{
    if text.len() <= 3 {
        text
    } else {
        grouped(text.take(text.len() - 3)) + seq![','] + text.skip(text.len() - 3)
    }
}

/// The character of one digit below sixteen.
pub fn digit_char(value: u8) -> (ch: char)
    requires
        value < 16,
    ensures
        ch == digit_char_spec(value as nat),
{
    if value < 10 {
        (48u8 + value) as char
    } else {
        (97u8 + (value - 10)) as char
    }
}

/// The value of a digit character.
pub fn digit_value(ch: char) -> (value: Option<u8>)
    ensures
        match value {
            Some(value) => digit_value_spec(ch) == Some(value as nat) && value < 36,
            None => digit_value_spec(ch) is None,
        },
{
    if '0' <= ch && ch <= '9' {
        Some((ch as u32 - '0' as u32) as u8)
    } else if 'a' <= ch && ch <= 'z' {
        Some((ch as u32 - 'a' as u32 + 10) as u8)
    } else if 'A' <= ch && ch <= 'Z' {
        Some((ch as u32 - 'A' as u32 + 10) as u8)
    } else {
        None
    }
}

/// Appends the digits of a number.
fn push_digits(text: &mut String, number: u64, base: u64)
    requires
        2 <= base <= 16,
    ensures
        final(text)@ == old(text)@ + digits_of(number as nat, base as nat),
    decreases number,
{
    if number < base {
        text.push(digit_char(number as u8));
    } else {
        proof {
            assert(number / base < number) by (nonlinear_arith)
                requires
                    2 <= base <= number,
            ;
            assert(number % base < base) by (nonlinear_arith)
                requires
                    2 <= base,
            ;
        }
        push_digits(text, number / base, base);
        text.push(digit_char((number % base) as u8));
    }
}

/// Appends the decimal text of a number.
pub fn push_decimal(text: &mut String, number: u64)
    ensures
        final(text)@ == old(text)@ + decimal(number as nat),
{
    push_digits(text, number, 10);
}

/// The decimal text of a number.
pub fn decimal_text(number: u64) -> (text: String)
    ensures
        text@ == decimal(number as nat),
{
    let mut text = String::new();
    push_decimal(&mut text, number);
    text
}

/// The decimal text of a signed number, with a minus sign below zero.
pub open spec fn signed_decimal(number: int) -> Seq<char> {
    if number < 0 {
        seq!['-'] + decimal((-number) as nat)
    } else {
        decimal(number as nat)
    }
}

/// The decimal text of a signed number.
pub fn signed_decimal_text(number: i64) -> (text: String)
    ensures
        text@ == signed_decimal(number as int),
{
    let mut text = String::new();
    if number < 0 {
        text.push('-');
        let magnitude: u64 = (-(number as i128)) as u64;
        push_decimal(&mut text, magnitude);
    } else {
        push_decimal(&mut text, number as u64);
    }
    text
}

/// Appends a text, filled up on the left with zeros.
fn push_zero_padded(target: &mut String, text: &String, length: usize, width: usize)
    requires
        length == text@.len(),
    ensures
        final(target)@ == old(target)@ + zero_padded(text@, width as nat),
{
    let mut missing: usize = length;
    let ghost before = target@;
    while missing < width
        invariant
            length <= missing,
            missing <= width || missing == length,
            target@ == before + Seq::new((missing - length) as nat, |i: int| '0'),
        decreases width - missing,
    {
        target.push('0');
        missing += 1;
    }
    target.push_str(text.as_str());
}

/// Appends a decimal number that takes at least `width` characters.
pub fn push_padded_decimal(target: &mut String, number: u64, width: usize)
    ensures
        final(target)@ == old(target)@ + zero_padded(decimal(number as nat), width as nat),
{
    let text = decimal_text(number);
    let length: usize = to_chars(text.as_str()).len();
    push_zero_padded(target, &text, length, width);
}

/// The lower-case hexadecimal text of a number in at least `width` characters.
pub fn padded_hex_text(number: u32, width: usize) -> (text: String)
    ensures
        text@ == zero_padded(digits_of(number as nat, 16), width as nat),
{
    let mut digits = String::new();
    push_digits(&mut digits, number as u64, 16);
    let length: usize = to_chars(digits.as_str()).len();
    let mut text = String::new();
    push_zero_padded(&mut text, &digits, length, width);
    text
}

/// A prefix of a digit run denotes no more than the whole run.
proof fn lemma_prefix_value(digits: Seq<char>, length: int, base: nat)
    requires
        0 <= length <= digits.len(),
        1 <= base,
    ensures
        digits_value(digits.take(length), base) <= digits_value(digits, base),
    decreases digits.len() - length,
{
    if length == digits.len() {
        assert(digits.take(length) == digits);
    } else {
        lemma_prefix_value(digits, length + 1, base);
        let longer = digits.take(length + 1);
        assert(longer.drop_last() == digits.take(length));
        let value = digits_value(digits.take(length), base);
        assert(value <= value * base) by (nonlinear_arith)
            requires
                1 <= base,
        ;
    }
}

/// Reads a number: an optional plus sign and digits of the base, up to `max`.
pub fn parse_digits(text: &str, base: u64, max: u64) -> (number: Option<u64>)
    requires
        2 <= base <= 16,
    ensures
        match number {
            Some(number) => parsed_up_to(text@, base as nat, max as nat) == Some(number as nat),
            None => parsed_up_to(text@, base as nat, max as nat) is None,
        },
{
    let chars = to_chars(text);
    let start: usize = if chars.len() > 0 && chars[0] == '+' {
        1
    } else {
        0
    };
    let ghost digits = without_plus(text@);
    assert(digits == text@.skip(start as int));
    if start == chars.len() {
        return None;
    }
    let mut number: u64 = 0;
    let mut index: usize = start;
    while index < chars.len()
        invariant
            2 <= base <= 16,
            start <= index <= chars@.len(),
            chars@ == text@,
            digits == without_plus(text@),
            digits == chars@.skip(start as int),
            all_digits(digits.take(index - start), base as nat),
            number == digits_value(digits.take(index - start), base as nat),
            number <= max,
        decreases chars.len() - index,
    {
        proof {
            assert(digits[index - start] == chars@[index as int]);
            assert(digits.take(index - start + 1).drop_last() == digits.take(index - start));
            lemma_prefix_value(digits, index - start + 1, base as nat);
        }
        let digit: u8 = match digit_value(chars[index]) {
            Some(digit) => digit,
            None => {
                return None;
            },
        };
        if digit as u64 >= base {
            return None;
        }
        assert(0 <= number * base <= u64::MAX * 16) by (nonlinear_arith)
            requires
                number <= u64::MAX,
                base <= 16,
        ;
        let next: u128 = number as u128 * base as u128 + digit as u128;
        if next > max as u128 {
            return None;
        }
        number = next as u64;
        index += 1;
    }
    assert(digits.take(index - start) == digits);
    Some(number)
}

/// Reads an unsigned decimal number that fits the machine's word.
pub fn parse_usize(text: &str) -> (number: Option<usize>)
    ensures
        match number {
            Some(number) => parsed_up_to(text@, 10, usize::MAX as nat) == Some(number as nat),
            None => parsed_up_to(text@, 10, usize::MAX as nat) is None,
        },
{
    match parse_digits(text, 10, usize::MAX as u64) {
        Some(number) => Some(number as usize),
        None => None,
    }
}

/// Reads an unsigned hexadecimal number of 32 bits.
pub fn parse_hex(text: &str) -> (number: Option<u32>)
    ensures
        match number {
            Some(number) => parsed_up_to(text@, 16, u32::MAX as nat) == Some(number as nat),
            None => parsed_up_to(text@, 16, u32::MAX as nat) is None,
        },
{
    match parse_digits(text, 16, u32::MAX as u64) {
        Some(number) => Some(number as u32),
        None => None,
    }
}

/// Inserts a comma before every third character from the right.
pub fn add_grouping(value: &str) -> (text: String)
    ensures
        text@ == grouped(value@),
{
    let chars = to_chars(value);
    let mut text = String::new();
    push_grouped(&mut text, &chars, chars.len());
    assert(chars@.take(chars@.len() as int) == chars@);
    text
}

/// Appends the first `length` characters with grouping commas.
fn push_grouped(text: &mut String, chars: &Vec<char>, length: usize)
    requires
        length <= chars@.len(),
    ensures
        final(text)@ == old(text)@ + grouped(chars@.take(length as int)),
    decreases length,
{
    let ghost prefix = chars@.take(length as int);
    let start: usize = if length > 3 {
        push_grouped(text, chars, length - 3);
        text.push(',');
        assert(prefix.take(prefix.len() - 3) == chars@.take(length - 3));
        length - 3
    } else {
        0
    };
    let ghost before = text@;
    let mut index: usize = start;
    while index < length
        invariant
            start <= index <= length <= chars@.len(),
            text@ == before + chars@.subrange(start as int, index as int),
        decreases length - index,
    {
        text.push(chars[index]);
        index += 1;
    }
    proof {
        if length > 3 {
            assert(prefix.skip(prefix.len() - 3) == chars@.subrange(start as int, length as int));
            assert(text@ == old(text)@ + grouped(prefix));
        } else {
            assert(prefix == chars@.subrange(0, length as int));
        }
    }
}

/// Where the run of decimal digits that begins at `start` ends.
pub open spec fn digit_run_end(text: Seq<char>, start: int) -> int
    decreases text.len() - start,
{
    if 0 <= start < text.len() && is_digit_of(text[start], 10) {
        digit_run_end(text, start + 1)
    } else {
        start
    }
}

/// A text without one leading plus or minus sign.
pub open spec fn without_sign(text: Seq<char>) -> Seq<char> {
    if text.len() > 0 && (text[0] == '+' || text[0] == '-') {
        text.skip(1)
    } else {
        text
    }
}

/// An exponent, or nothing: the letter e, an optional sign and digits up to the
/// end.
pub open spec fn is_exponent(text: Seq<char>) -> bool {
    ||| text.len() == 0
    ||| {
        &&& text[0] == 'e' || text[0] == 'E'
        &&& without_sign(text.skip(1)).len() > 0
        &&& all_digits(without_sign(text.skip(1)), 10)
    }
}

/// Decimal digits with an optional point and an optional exponent: at least one
/// digit stands before or behind the point.
pub open spec fn is_decimal_float(text: Seq<char>) -> bool {
    let whole_end = digit_run_end(text, 0);
    if whole_end < text.len() && text[whole_end] == '.' {
        let fraction_end = digit_run_end(text, whole_end + 1);
        whole_end + (fraction_end - whole_end - 1) > 0 && is_exponent(text.skip(fraction_end))
    } else {
        whole_end > 0 && is_exponent(text.skip(whole_end))
    }
}

/// Whether a text is a floating-point literal: an optional sign and then decimal
/// digits, or one of the words for infinity and not-a-number in any case.
pub open spec fn is_float_literal(text: Seq<char>) -> bool {
    let body = without_sign(text);
    let lowered = ascii_lowered(body);
    ||| lowered == "inf"@
    ||| lowered == "infinity"@
    ||| lowered == "nan"@
    ||| is_decimal_float(body)
}

/// Finds where the run of decimal digits that begins at `start` ends.
fn find_digit_run_end(chars: &Vec<char>, start: usize) -> (end: usize)
    requires
        start <= chars@.len(),
    ensures
        start <= end <= chars@.len(),
        end == digit_run_end(chars@, start as int),
{
    let mut end: usize = start;
    while end < chars.len() && is_decimal_digit(chars[end])
        invariant
            start <= end <= chars@.len(),
            digit_run_end(chars@, start as int) == digit_run_end(chars@, end as int),
        decreases chars@.len() - end,
    {
        end += 1;
    }
    end
}

/// Whether a character is one of the ten decimal digits.
pub fn is_decimal_digit(ch: char) -> (is: bool)
    ensures
        is == is_digit_of(ch, 10),
        is == ('0' <= ch <= '9'),
{
    '0' <= ch && ch <= '9'
}

/// A digit run that reaches the end is all digits, and the other way round.
proof fn lemma_digit_run(text: Seq<char>, start: int)
    requires
        0 <= start <= text.len(),
    ensures
        start <= digit_run_end(text, start) <= text.len(),
        digit_run_end(text, start) == text.len() <==> all_digits(text.skip(start), 10),
    decreases text.len() - start,
{
    let tail = text.skip(start);
    if start < text.len() {
        assert(tail[0] == text[start]);
        if is_digit_of(text[start], 10) {
            lemma_digit_run(text, start + 1);
            assert(text.skip(start + 1) == tail.skip(1));
            if all_digits(tail.skip(1), 10) {
                assert forall|i: int| 0 <= i < tail.len() implies is_digit_of(#[trigger] tail[i], 10) by {
                    if i > 0 {
                        assert(tail.skip(1)[i - 1] == tail[i]);
                    }
                }
            }
            if all_digits(tail, 10) {
                assert forall|i: int| 0 <= i < tail.skip(1).len() implies is_digit_of(
                    #[trigger] tail.skip(1)[i],
                    10,
                ) by {
                    assert(tail.skip(1)[i] == tail[i + 1]);
                }
            }
        }
    }
}

/// Whether the characters from `start` on are an exponent or nothing.
fn is_exponent_from(chars: &Vec<char>, start: usize) -> (is: bool)
    requires
        start <= chars@.len(),
    ensures
        is == is_exponent(chars@.skip(start as int)),
{
    if start == chars.len() {
        return true;
    }
    let ghost tail = chars@.skip(start as int);
    assert(tail[0] == chars@[start as int]);
    if chars[start] != 'e' && chars[start] != 'E' {
        return false;
    }
    let sign: usize = start + 1;
    assert(tail.skip(1) == chars@.skip(sign as int));
    let digits: usize = if sign < chars.len() && (chars[sign] == '+' || chars[sign] == '-') {
        assert(chars@.skip(sign as int)[0] == chars@[sign as int]);
        assert(tail.skip(1).skip(1) == chars@.skip(sign + 1));
        sign + 1
    } else {
        sign
    };
    assert(without_sign(tail.skip(1)) == chars@.skip(digits as int));
    let end: usize = find_digit_run_end(chars, digits);
    proof {
        lemma_digit_run(chars@, digits as int);
    }
    digits < chars.len() && end == chars.len()
}

/// Whether a text is a floating-point literal.
pub fn is_float(text: &str) -> (is: bool)
    ensures
        is == is_float_literal(text@),
{
    let all = to_chars(text);
    let start: usize = if all.len() > 0 && (all[0] == '+' || all[0] == '-') {
        1
    } else {
        0
    };
    let body = text_from(&all, start, all.len());
    assert(body@ == without_sign(text@));
    let lowered = lower_text(body.as_str());
    if same_text(lowered.as_str(), "inf") || same_text(lowered.as_str(), "infinity") || same_text(
        lowered.as_str(),
        "nan",
    ) {
        return true;
    }
    let chars = to_chars(body.as_str());
    let whole_end: usize = find_digit_run_end(&chars, 0);
    if whole_end < chars.len() && chars[whole_end] == '.' {
        let fraction_end: usize = find_digit_run_end(&chars, whole_end + 1);
        fraction_end > 1 && is_exponent_from(&chars, fraction_end)
    } else {
        whole_end > 0 && is_exponent_from(&chars, whole_end)
    }
}

/// Reading the digits of a number gives the number back.
pub proof fn digits_denote_their_number(number: nat, base: nat)
    requires
        2 <= base <= 16,
    ensures
        digits_value(digits_of(number, base), base) == number,
        all_digits(digits_of(number, base), base),
        digits_of(number, base).len() > 0,
    decreases number,
{
    if number < base {
        let digits = digits_of(number, base);
        assert(digits.drop_last() == Seq::<char>::empty());
        assert(digits_value(digits.drop_last(), base) == 0);
        assert(0 * base == 0) by (nonlinear_arith);
    } else {
        assert(number / base < number) by (nonlinear_arith)
            requires
                2 <= base <= number,
        ;
        assert(number % base < base) by (nonlinear_arith)
            requires
                2 <= base,
        ;
        assert((number / base) * base + number % base == number) by (nonlinear_arith)
            requires
                2 <= base,
        ;
        digits_denote_their_number(number / base, base);
        let head = digits_of(number / base, base);
        assert(digits_of(number, base).drop_last() == head);
    }
}

/// A number's decimal text is read back as that number.
pub proof fn decimal_text_reads_back(number: nat)
    ensures
        parsed_number(decimal(number), 10) == Some(number),
{
    digits_denote_their_number(number, 10);
    assert(is_digit_of(decimal(number)[0], 10));
    assert(without_plus(decimal(number)) == decimal(number));
}

/// Zeros in front change nothing of what digits denote, so that a padded number reads back.
pub proof fn padding_keeps_the_number(digits: Seq<char>, width: nat, base: nat)
    requires
        2 <= base <= 16,
        all_digits(digits, base),
    ensures
        digits_value(zero_padded(digits, width), base) == digits_value(digits, base),
        all_digits(zero_padded(digits, width), base),
        zero_padded(digits, width).len() >= width,
        digits.len() <= width ==> zero_padded(digits, width).len() == width,
    decreases width + digits.len(),
{
    let padded = zero_padded(digits, width);
    if digits.len() < width {
        if digits.len() > 0 {
            padding_keeps_the_number(digits.drop_last(), (width - 1) as nat, base);
            assert(padded.drop_last() == zero_padded(digits.drop_last(), (width - 1) as nat));
        } else {
            padding_keeps_the_number(digits, (width - 1) as nat, base);
            assert(padded.drop_last() == zero_padded(digits, (width - 1) as nat));
            assert(digits_value(padded.drop_last(), base) == 0);
            assert(0 * base == 0) by (nonlinear_arith);
        }
    }
}

/// Grouping only adds commas: taking them away again gives the text back when
/// the text itself holds none.
pub proof fn grouping_keeps_the_characters(text: Seq<char>)
    requires
        !text.contains(','),
    ensures
        grouped(text).filter(|ch: char| ch != ',') == text,
    decreases text.len(),
{
    let keep = |ch: char| ch != ',';
    if text.len() <= 3 {
        lemma_filter_all(text, keep);
    } else {
        let head = text.take(text.len() - 3);
        let tail = text.skip(text.len() - 3);
        assert(!head.contains(','));
        assert(!tail.contains(','));
        grouping_keeps_the_characters(head);
        lemma_filter_all(tail, keep);
        lemma_filter_none(seq![','], keep);
        Seq::filter_distributes_over_add(grouped(head) + seq![','], tail, keep);
        Seq::filter_distributes_over_add(grouped(head), seq![','], keep);
        assert(head + tail == text);
    }
}

/// Filtering by a condition that every element meets keeps the sequence.
proof fn lemma_filter_all(text: Seq<char>, keep: spec_fn(char) -> bool)
    requires
        forall|i: int| 0 <= i < text.len() ==> keep(#[trigger] text[i]),
    ensures
        text.filter(keep) == text,
    decreases text.len(),
{
    reveal(Seq::filter);
    if text.len() > 0 {
        lemma_filter_all(text.drop_last(), keep);
        assert(text.drop_last().push(text.last()) == text);
    }
}

/// Filtering by a condition that no element meets leaves nothing.
proof fn lemma_filter_none(text: Seq<char>, keep: spec_fn(char) -> bool)
    requires
        forall|i: int| 0 <= i < text.len() ==> !keep(#[trigger] text[i]),
    ensures
        text.filter(keep) == Seq::<char>::empty(),
    decreases text.len(),
{
    reveal(Seq::filter);
    if text.len() > 0 {
        lemma_filter_none(text.drop_last(), keep);
    }
}

/// In a grouped text, a position holds a comma exactly when the number of
/// characters from it to the end is a multiple of four.
pub proof fn grouping_places_commas(text: Seq<char>, index: int)
    requires
        !text.contains(','),
        0 <= index < grouped(text).len(),
    ensures
        grouped(text)[index] == ',' <==> (grouped(text).len() - index) % 4 == 0,
    decreases text.len(),
{
    if text.len() > 3 {
        let head = text.take(text.len() - 3);
        let tail = text.skip(text.len() - 3);
        assert(!head.contains(','));
        let split = grouped(head).len();
        if index < split {
            grouping_places_commas(head, index);
            assert((grouped(text).len() - index) == (split - index) + 4);
        } else if index > split {
            assert(grouped(text)[index] == tail[index - split - 1]);
            assert(text.contains(text[text.len() - 3 + (index - split - 1)]));
        }
    } else {
        assert(text.contains(text[index]));
    }
}

/// A number may bear a plus sign, but nothing else that is no digit; a text without digits is no
/// number.
pub proof fn numbers_are_made_of_digits(text: Seq<char>, base: nat)
    requires
        base <= 36,
    ensures
        text.len() > 0 && text[0] != '+' ==> parsed_number(seq!['+'] + text, base)
            == parsed_number(text, base),
        parsed_number(Seq::empty(), base) is None,
        parsed_number(seq!['+'], base) is None,
        text.len() > 0 && text[0] != '+' ==> (parsed_number(text, base) is Some <==> forall|i: int|
            0 <= i < text.len() ==> is_digit_of(#[trigger] text[i], base)),
        forall|max: nat|
            parsed_number(text, base) is Some && parsed_number(text, base)->0 <= max
                ==> #[trigger] parsed_up_to(text, base, max) == parsed_number(text, base),
        forall|max: nat|
            parsed_number(text, base) is Some && parsed_number(text, base)->0 > max
                ==> #[trigger] parsed_up_to(text, base, max) is None,
{
    assert((seq!['+'] + text).skip(1) =~= text);
    assert(seq!['+'].skip(1) =~= Seq::<char>::empty());
}

/// A whole number is written by its digits, a negative one behind a minus sign.
pub proof fn signed_numbers_read_back(number: int)
    ensures
        number >= 0 ==> parsed_number(signed_decimal(number), 10) == Some(number as nat),
        number < 0 ==> signed_decimal(number)[0] == '-' && parsed_number(
            signed_decimal(number).skip(1),
            10,
        ) == Some((-number) as nat),
{
    if number < 0 {
        decimal_text_reads_back((-number) as nat);
        assert(signed_decimal(number).skip(1) =~= decimal((-number) as nat));
    } else {
        decimal_text_reads_back(number as nat);
    }
}

/// A run of digits ends where they end.
pub proof fn lemma_run_of_digits(digits: Seq<char>, rest: Seq<char>, from: int)
    requires
        0 <= from <= digits.len(),
        all_digits(digits, 10),
        rest.len() > 0 ==> !is_digit_of(rest[0], 10),
    ensures
        digit_run_end(digits + rest, from) == digits.len(),
    decreases digits.len() - from,
{
    let text = digits + rest;
    if from < digits.len() {
        assert(text[from] == digits[from]);
        lemma_run_of_digits(digits, rest, from + 1);
    } else if rest.len() > 0 {
        assert(text[from] == rest[0]);
    }
}

/// A number may have an exponent: behind the letter, in either case, stand digits, with a sign or
/// without. The letter alone is no exponent.
pub proof fn exponents_have_digits(whole: nat, exponent: nat, letter: char)
    requires
        letter == 'e' || letter == 'E',
    ensures
        is_float_literal(decimal(whole)),
        is_float_literal(decimal(whole) + (seq![letter] + decimal(exponent))),
        is_float_literal(decimal(whole) + (seq![letter, '-'] + decimal(exponent))),
        is_float_literal(decimal(whole) + (seq![letter, '+'] + decimal(exponent))),
        !is_float_literal(decimal(whole) + seq![letter]),
        is_float_literal(seq!['-'] + decimal(whole)),
        is_float_literal(seq!['+'] + decimal(whole)),
        !is_float_literal(Seq::empty()),
{
    let (digits, power) = (decimal(whole), decimal(exponent));
    digits_denote_their_number(whole, 10);
    digits_denote_their_number(exponent, 10);
    assert(is_digit_of(digits[0], 10));
    assert(is_digit_of(power[0], 10));
    let (bare, minus, plus) = (
        seq![letter] + power,
        seq![letter, '-'] + power,
        seq![letter, '+'] + power,
    );
    let nothing = Seq::<char>::empty();
    lemma_run_of_digits(digits, nothing, 0);
    lemma_run_of_digits(digits, bare, 0);
    lemma_run_of_digits(digits, minus, 0);
    lemma_run_of_digits(digits, plus, 0);
    lemma_run_of_digits(digits, seq![letter], 0);
    let end = digits.len() as int;
    assert(digits + nothing =~= digits);
    assert((digits + nothing).skip(end) =~= nothing);
    assert((digits + bare).skip(end) =~= bare);
    assert((digits + minus).skip(end) =~= minus);
    assert((digits + plus).skip(end) =~= plus);
    assert((digits + seq![letter]).skip(end) =~= seq![letter]);
    assert(bare.skip(1) =~= power);
    assert(minus.skip(1) =~= seq!['-'] + power);
    assert(plus.skip(1) =~= seq!['+'] + power);
    assert((seq!['-'] + power).skip(1) =~= power);
    assert((seq!['+'] + power).skip(1) =~= power);
    assert(seq![letter].skip(1) =~= nothing);
    assert((seq!['-'] + digits).skip(1) =~= digits);
    assert((seq!['+'] + digits).skip(1) =~= digits);
    let lone = digits + seq![letter];
    assert(lone[0] == digits[0]);
    assert(without_sign(lone) == lone);
    reveal_strlit("inf");
    reveal_strlit("infinity");
    reveal_strlit("nan");
    lowering_changes_capitals_only(lone, 0);
    assert(ascii_lowered(lone)[0] != 'i' && ascii_lowered(lone)[0] != 'n');
    assert(ascii_lowered(nothing).len() == 0);
}

proof fn lemma_lowered_digits(digits: Seq<char>, base: nat)
    ensures
        digits_value(ascii_lowered(digits), base) == digits_value(digits, base),
        all_digits(ascii_lowered(digits), base) == all_digits(digits, base),
    decreases digits.len(),
{
    let lowered = ascii_lowered(digits);
    assert forall|i: int| 0 <= i < digits.len() implies digit_value_spec(#[trigger] lowered[i])
        == digit_value_spec(digits[i]) by {
        lowering_changes_capitals_only(digits, i);
    }
    if all_digits(digits, base) {
        assert forall|i: int| 0 <= i < lowered.len() implies is_digit_of(
            #[trigger] lowered[i],
            base,
        ) by {
            assert(is_digit_of(digits[i], base));
        }
    }
    if all_digits(lowered, base) {
        assert forall|i: int| 0 <= i < digits.len() implies is_digit_of(
            #[trigger] digits[i],
            base,
        ) by {
            assert(is_digit_of(lowered[i], base));
        }
    }
    if digits.len() > 0 {
        lemma_lowered_digits(digits.drop_last(), base);
        assert(lowered.drop_last() =~= ascii_lowered(digits.drop_last()));
        assert(lowered[digits.len() - 1] == lowered.last());
    }
}

/// Digits beyond nine count the same in capitals and in small letters.
pub proof fn digits_count_in_either_case(text: Seq<char>, base: nat)
    ensures
        parsed_number(ascii_lowered(text), base) == parsed_number(text, base),
{
    let digits = without_plus(text);
    lemma_lowered_digits(digits, base);
    if text.len() > 0 {
        lowering_changes_capitals_only(text, 0);
    }
    assert(without_plus(ascii_lowered(text)) =~= ascii_lowered(digits));
}

} // verus!
