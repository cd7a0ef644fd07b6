//! The pieces of JSON text that the line protocol is made of, each with the
//! text that is written for a value and a reader that finds the value again.

use vstd::prelude::*;
use vstd::string::*;

use crate::numeral::{chars_of, digit_in, digit_of, digits_value, is_digit};
use crate::text::{
    decimal, digit_char, digit_to_char, lemma_digits_of_value, push_char, push_decimal, push_text,
};

verus! {

/// Whether `text` holds `part` from the position `at` on.
pub open spec fn holds_at(text: Seq<char>, at: int, part: Seq<char>) -> bool {
    0 <= at && at + part.len() <= text.len() && text.subrange(at, at + part.len()) == part
}

/// Steps over `part` where the text holds it at `at`.
pub fn expect(text: &Vec<char>, at: usize, part: &str) -> (r: Option<usize>)
    ensures
        r matches Some(end) ==> holds_at(text@, at as int, part@) && end == at + part@.len(),
        r is None ==> !holds_at(text@, at as int, part@),
{
    let wanted: Vec<char> = chars_of(part);
    let len: usize = wanted.len();
    if at > text.len() || text.len() - at < len {
        return None;
    }
    let mut i: usize = 0;
    while i < len
        invariant
            i <= len,
            len == wanted@.len(),
            wanted@ == part@,
            at + len <= text@.len() <= usize::MAX,
            forall|j: int| 0 <= j < i ==> text@[at + j] == wanted@[j],
        decreases len - i,
    {
        if text[at + i] != wanted[i] {
            assert(text@.subrange(at as int, at + len)[i as int] != part@[i as int]);
            return None;
        }
        i = i + 1;
    }
    assert(text@.subrange(at as int, at + len) =~= part@);
    Some(at + len)
}

/// Whether a character is a decimal digit.
pub open spec fn is_decimal(c: char) -> bool {
    '0' <= c && c <= '9'
}

/// The end of the run of decimal digits that starts at `at`.
pub open spec fn digits_end(text: Seq<char>, at: int) -> int
    decreases text.len() - at,
{
    if 0 <= at < text.len() && is_decimal(text[at]) {
        digits_end(text, at + 1)
    } else {
        at
    }
}

/// The number of at most `max` that is written at `at`, with the position
/// behind it: the value of the digits that stand there, as many as there
/// are.
pub open spec fn number_at(text: Seq<char>, at: int, max: nat) -> Option<(u64, int)> {
    let end = digits_end(text, at);
    let value = digits_value(text.subrange(at, end), 10);
    if 0 <= at < end && value <= max && max <= u64::MAX {
        Some((value as u64, end))
    } else {
        None
    }
}

/// The run of digits at `at` ends at the first character behind `at` that is
/// no digit.
pub proof fn lemma_digits_end(text: Seq<char>, at: int, end: int)
    requires
        0 <= at <= end <= text.len(),
        forall|i: int| at <= i < end ==> is_decimal(#[trigger] text[i]),
        end == text.len() || !is_decimal(text[end]),
    ensures
        digits_end(text, at) == end,
    decreases end - at,
{
    if at < end {
        assert(is_decimal(text[at]));
        lemma_digits_end(text, at + 1, end);
    }
}

/// The run of digits at `at` lies within the text and holds digits only.
pub proof fn lemma_digits_end_is_run(text: Seq<char>, at: int)
    requires
        0 <= at <= text.len(),
    ensures
        at <= digits_end(text, at) <= text.len(),
        forall|i: int| at <= i < digits_end(text, at) ==> is_decimal(#[trigger] text[i]),
        digits_end(text, at) == text.len() || !is_decimal(text[digits_end(text, at)]),
    decreases text.len() - at,
{
    if at < text.len() && is_decimal(text[at]) {
        lemma_digits_end_is_run(text, at + 1);
    }
}

/// A number written in decimal is found again, whatever stands before it,
/// if no digit follows it.
pub proof fn lemma_number_found(before: Seq<char>, n: u64, after: Seq<char>, max: nat)
    requires
        n <= max <= u64::MAX,
        after.len() == 0 || !is_decimal(after[0]),
    ensures
        number_at(before + decimal(n as nat) + after, before.len() as int, max) == Some(
            (n, (before.len() + decimal(n as nat).len()) as int),
        ),
{
    let digits = decimal(n as nat);
    let text = before + digits + after;
    let at = before.len() as int;
    let end = at + digits.len();
    lemma_digits_of_value(n as nat, 10);
    assert forall|i: int| at <= i < end implies is_decimal(#[trigger] text[i]) by {
        assert(text[i] == digits[i - at]);
        assert(is_digit(digits[i - at], 10));
    }
    if end < text.len() {
        assert(text[end] == after[0]);
    }
    lemma_digits_end(text, at, end);
    assert(text.subrange(at, end) =~= digits);
}

/// Reads the number of at most `max` that is written at `at`.
pub fn read_number(text: &Vec<char>, at: usize, max: u64) -> (r: Option<(u64, usize)>)
    ensures
        r matches Some((value, end)) ==> number_at(text@, at as int, max as nat) == Some(
            (value, end as int),
        ) && at < end <= text@.len(),
        r is None ==> number_at(text@, at as int, max as nat) is None,
{
    let len: usize = text.len();
    if at >= len {
        return None;
    }
    proof {
        lemma_digits_end_is_run(text@, at as int);
    }
    let ghost end = digits_end(text@, at as int);
    let ghost run = text@.subrange(at as int, end);
    let mut i: usize = at;
    let mut acc: u64 = 0;
    while i < len && '0' <= text[i] && text[i] <= '9'
        invariant
            at <= i <= end <= len,
            len == text@.len(),
            end == digits_end(text@, at as int),
            run == text@.subrange(at as int, end),
            forall|j: int| at <= j < end ==> is_decimal(#[trigger] text@[j]),
            end == len || !is_decimal(text@[end]),
            acc == digits_value(run.take(i - at), 10),
            acc <= max,
        decreases len - i,
    {
        let c: char = text[i];
        proof {
            if i == end {
                assert(!is_decimal(text@[end]));
            }
            let longer = run.take(i + 1 - at);
            assert(longer.drop_last() =~= run.take(i - at));
            assert(longer.last() == c);
        }
        let d: u32 = c as u32 - '0' as u32;
        let wide: u128 = acc as u128 * 10 + d as u128;
        if wide > max as u128 {
            proof {
                crate::numeral::lemma_digits_value_grows(run, 10, i + 1 - at);
            }
            return None;
        }
        acc = wide as u64;
        i = i + 1;
    }
    proof {
        if i < end {
            assert(is_decimal(text@[i as int]));
        }
        assert(run.take(end - at) =~= run);
    }
    if i == at {
        None
    } else {
        Some((acc, i))
    }
}

/// The numbers of a list as text: in decimal, with a comma between two.
pub open spec fn items_text(items: Seq<u64>) -> Seq<char>
    decreases items.len(),
{
    if items.len() == 0 {
        Seq::<char>::empty()
    } else if items.len() == 1 {
        decimal(items[0] as nat)
    } else {
        decimal(items[0] as nat) + seq![','] + items_text(items.drop_first())
    }
}

/// A list of numbers as text: its numbers in square brackets.
pub open spec fn list_text(items: Seq<u64>) -> Seq<char> {
    seq!['['] + items_text(items) + seq![']']
}

/// The bytes as numbers of 64 bits.
pub open spec fn widened(bytes: Seq<u8>) -> Seq<u64> {
    Seq::new(bytes.len(), |i: int| bytes[i] as u64)
}

/// The numbers that are written from `at` on up to the closing bracket,
/// each of at most `max`, with the position behind the bracket.
pub open spec fn items_at(text: Seq<char>, at: int, max: nat) -> Option<(Seq<u64>, int)>
    decreases text.len() - at,
{
    match number_at(text, at, max) {
        Some((value, end)) => {
            if end < text.len() && text[end] == ',' {
                match items_at(text, end + 1, max) {
                    Some((rest, behind)) => Some((seq![value] + rest, behind)),
                    None => None,
                }
            } else if end < text.len() && text[end] == ']' {
                Some((seq![value], end + 1))
            } else {
                None
            }
        },
        None => None,
    }
}

/// The list of numbers that is written at `at`, each of at most `max`, with
/// the position behind it.
pub open spec fn list_at(text: Seq<char>, at: int, max: nat) -> Option<(Seq<u64>, int)> {
    if 0 <= at && at + 1 < text.len() && text[at] == '[' {
        if text[at + 1] == ']' {
            Some((Seq::<u64>::empty(), at + 2))
        } else {
            items_at(text, at + 1, max)
        }
    } else {
        None
    }
}

/// The numbers of a list are found again before its closing bracket.
pub proof fn lemma_items_found(before: Seq<char>, items: Seq<u64>, after: Seq<char>, max: nat)
    requires
        items.len() > 0,
        max <= u64::MAX,
        forall|i: int| 0 <= i < items.len() ==> #[trigger] items[i] <= max,
    ensures
        items_at(before + items_text(items) + seq![']'] + after, before.len() as int, max) == Some(
            (items, (before.len() + items_text(items).len() + 1) as int),
        ),
    decreases items.len(),
{
    let text = before + items_text(items) + seq![']'] + after;
    let first = decimal(items[0] as nat);
    let at = before.len() as int;
    let end = at + first.len();
    if items.len() == 1 {
        let tail = seq![']'] + after;
        assert(text =~= before + first + tail);
        lemma_number_found(before, items[0], tail, max);
        assert(text[end] == ']');
        assert(seq![items[0]] =~= items);
    } else {
        let rest = items.drop_first();
        let tail = seq![','] + items_text(rest) + seq![']'] + after;
        assert(text =~= before + first + tail);
        lemma_number_found(before, items[0], tail, max);
        assert(text[end] == ',');
        let longer = before + first + seq![','];
        assert(text =~= longer + items_text(rest) + seq![']'] + after);
        assert forall|i: int| 0 <= i < rest.len() implies #[trigger] rest[i] <= max by {
            assert(rest[i] == items[i + 1]);
        }
        lemma_items_found(longer, rest, after, max);
        assert(seq![items[0]] + rest =~= items);
    }
}

/// A list of numbers is found again, whatever stands around it.
pub proof fn lemma_list_found(before: Seq<char>, items: Seq<u64>, after: Seq<char>, max: nat)
    requires
        max <= u64::MAX,
        forall|i: int| 0 <= i < items.len() ==> #[trigger] items[i] <= max,
    ensures
        list_at(before + list_text(items) + after, before.len() as int, max) == Some(
            (items, (before.len() + list_text(items).len()) as int),
        ),
{
    let text = before + list_text(items) + after;
    let at = before.len() as int;
    assert(text[at] == '[');
    if items.len() == 0 {
        assert(text[at + 1] == ']');
        assert(items =~= Seq::<u64>::empty());
    } else {
        let longer = before + seq!['['];
        assert(text =~= longer + items_text(items) + seq![']'] + after);
        lemma_digits_of_value(items[0] as nat, 10);
        let first = decimal(items[0] as nat);
        assert(items_text(items)[0] == first[0]);
        assert(is_digit(first[0], 10));
        assert(text[at + 1] == first[0]);
        lemma_items_found(longer, items, after, max);
    }
}

/// Every number of a list that is read is at most the bound it was read
/// with.
pub proof fn lemma_items_bounded(text: Seq<char>, at: int, max: nat)
    ensures
        items_at(text, at, max) matches Some((items, _)) ==> forall|i: int|
            0 <= i < items.len() ==> #[trigger] items[i] <= max,
    decreases text.len() - at,
{
    match number_at(text, at, max) {
        Some((value, end)) => {
            if end < text.len() && text[end] == ',' {
                lemma_items_bounded(text, end + 1, max);
            }
        },
        None => {},
    }
}

/// Every number of a list that is read is at most the bound it was read
/// with.
pub proof fn lemma_list_bounded(text: Seq<char>, at: int, max: nat)
    ensures
        list_at(text, at, max) matches Some((items, _)) ==> forall|i: int|
            0 <= i < items.len() ==> #[trigger] items[i] <= max,
{
    lemma_items_bounded(text, at + 1, max);
}

/// Appends a list of numbers to `out`.
pub fn push_list(out: &mut String, items: &Vec<u64>)
    ensures
        final(out)@ == old(out)@ + list_text(items@),
{
    push_char(out, '[');
    let ghost start = out@;
    let len: usize = items.len();
    let mut i: usize = 0;
    proof {
        assert(items@.skip(0) =~= items@);
    }
    while i < len
        invariant
            i <= len,
            len == items@.len(),
            start + items_text(items@) == out@ + (if i == 0 || i == len {
                Seq::<char>::empty()
            } else {
                seq![',']
            }) + items_text(items@.skip(i as int)),
        decreases len - i,
    {
        let ghost rest = items@.skip(i as int);
        proof {
            assert(rest[0] == items@[i as int]);
            assert(rest.drop_first() =~= items@.skip(i + 1));
            if i == 0 {
                assert(rest =~= items@);
            }
        }
        if i > 0 {
            push_char(out, ',');
        }
        push_decimal(out, items[i]);
        i = i + 1;
        proof {
            let written = decimal(items@[i - 1] as nat);
            if i == len {
                assert(items_text(items@.skip(i as int)) =~= Seq::<char>::empty());
                assert(start + items_text(items@) =~= out@ + Seq::<char>::empty() + items_text(
                    items@.skip(i as int),
                ));
            } else {
                assert(start + items_text(items@) =~= out@ + seq![','] + items_text(
                    items@.skip(i as int),
                ));
            }
        }
    }
    proof {
        assert(items@.skip(len as int) =~= Seq::<u64>::empty());
        assert(out@ =~= start + items_text(items@));
    }
    push_char(out, ']');
    proof {
        assert(out@ =~= old(out)@ + list_text(items@));
    }
}

/// Reads the list of numbers that is written at `at`, each of at most `max`.
pub fn read_list(text: &Vec<char>, at: usize, max: u64) -> (r: Option<(Vec<u64>, usize)>)
    ensures
        r matches Some((items, end)) ==> list_at(text@, at as int, max as nat) == Some(
            (items@, end as int),
        ) && at < end <= text@.len(),
        r is None ==> list_at(text@, at as int, max as nat) is None,
{
    let len: usize = text.len();
    if at >= len || len - at < 2 || text[at] != '[' {
        return None;
    }
    let mut items: Vec<u64> = Vec::new();
    if text[at + 1] == ']' {
        return Some((items, at + 2));
    }
    let mut pos: usize = at + 1;
    loop
        invariant
            at < pos <= len,
            len == text@.len(),
            list_at(text@, at as int, max as nat) == match items_at(text@, pos as int, max as nat) {
                Some((rest, behind)) => Some((items@ + rest, behind)),
                None => None,
            },
        decreases len - pos,
    {
        let (value, end): (u64, usize) = match read_number(text, pos, max) {
            Some(found) => found,
            None => {
                return None;
            },
        };
        proof {
            lemma_digits_end_is_run(text@, pos as int);
        }
        if end >= len {
            return None;
        }
        items.push(value);
        if text[end] == ',' {
            proof {
                let rest = items_at(text@, end + 1, max as nat);
                if rest is Some {
                    let more = rest.unwrap().0;
                    assert(items@ + more =~= items@.drop_last() + (seq![value] + more));
                }
            }
            pos = end + 1;
        } else if text[end] == ']' {
            proof {
                assert(items@ =~= items@.drop_last() + seq![value]);
            }
            return Some((items, end + 1));
        } else {
            return None;
        }
    }
}

/// The text that stands for one character inside a string: a backslash
/// and a letter for the quote, the backslash and five control characters,
/// `\u00` and two hexadecimal digits for any other character below the
/// blank, and the character itself for the rest.
pub open spec fn escaped_char(c: char) -> Seq<char> {
    if c == '"' {
        seq!['\\', '"']
    } else if c == '\\' {
        seq!['\\', '\\']
    } else if c == '\u{8}' {
        seq!['\\', 'b']
    } else if c == '\u{c}' {
        seq!['\\', 'f']
    } else if c == '\n' {
        seq!['\\', 'n']
    } else if c == '\r' {
        seq!['\\', 'r']
    } else if c == '\t' {
        seq!['\\', 't']
    } else if (c as u32) < 0x20 {
        seq![
            '\\',
            'u',
            '0',
            '0',
            digit_char((c as u32 / 16) as nat),
            digit_char((c as u32 % 16) as nat),
        ]
    } else {
        seq![c]
    }
}

/// The characters of a string as they stand between its quotes.
pub open spec fn escaped(text: Seq<char>) -> Seq<char>
    decreases text.len(),
{
    if text.len() == 0 {
        Seq::<char>::empty()
    } else {
        escaped_char(text[0]) + escaped(text.drop_first())
    }
}

/// A string as text: its characters, escaped, in quotes.
pub open spec fn string_text(text: Seq<char>) -> Seq<char> {
    seq!['"'] + escaped(text) + seq!['"']
}

/// The character that a letter behind a backslash stands for.
pub open spec fn escape_letter(c: char) -> Option<char> {
    if c == '"' {
        Some('"')
    } else if c == '\\' {
        Some('\\')
    } else if c == 'b' {
        Some('\u{8}')
    } else if c == 'f' {
        Some('\u{c}')
    } else if c == 'n' {
        Some('\n')
    } else if c == 'r' {
        Some('\r')
    } else if c == 't' {
        Some('\t')
    } else {
        None
    }
}

/// The character of a string that is written at `at`, plain or escaped,
/// with the position behind it. Of the escapes with `u` only those for the
/// characters below 256 are read.
pub open spec fn char_at(text: Seq<char>, at: int) -> Option<(char, int)> {
    if at < 0 || at >= text.len() {
        None
    } else if text[at] != '\\' {
        Some((text[at], at + 1))
    } else if at + 1 >= text.len() {
        None
    } else if text[at + 1] == 'u' {
        if at + 5 < text.len() && text[at + 2] == '0' && text[at + 3] == '0' && is_digit(
            text[at + 4],
            16,
        ) && is_digit(text[at + 5], 16) {
            Some(
                (
                    ((digit_of(text[at + 4]).unwrap() * 16 + digit_of(text[at + 5]).unwrap()) as u8) as char,
                    at + 6,
                ),
            )
        } else {
            None
        }
    } else {
        match escape_letter(text[at + 1]) {
            Some(c) => Some((c, at + 2)),
            None => None,
        }
    }
}

/// The characters of the string whose inside starts at `at`, with the
/// position behind its closing quote.
pub open spec fn chars_at(text: Seq<char>, at: int) -> Option<(Seq<char>, int)>
    decreases text.len() - at,
{
    if at < 0 || at >= text.len() {
        None
    } else if text[at] == '"' {
        Some((Seq::<char>::empty(), at + 1))
    } else {
        match char_at(text, at) {
            Some((c, next)) => match chars_at(text, next) {
                Some((rest, end)) => Some((seq![c] + rest, end)),
                None => None,
            },
            None => None,
        }
    }
}

/// The string that is written at `at`, with the position behind it.
pub open spec fn string_at(text: Seq<char>, at: int) -> Option<(Seq<char>, int)> {
    if 0 <= at < text.len() && text[at] == '"' {
        chars_at(text, at + 1)
    } else {
        None
    }
}

/// An escaped character is read back as the character.
pub proof fn lemma_char_found(before: Seq<char>, c: char, after: Seq<char>)
    ensures
        char_at(before + escaped_char(c) + after, before.len() as int) == Some(
            (c, (before.len() + escaped_char(c).len()) as int),
        ),
        escaped_char(c).len() > 0,
        escaped_char(c)[0] != '"',
{
    let text = before + escaped_char(c) + after;
    let at = before.len() as int;
    let written = escaped_char(c);
    assert forall|i: int| 0 <= i < written.len() implies text[at + i] == written[i] by {}
    assert(text[at] == written[0]);
    if written.len() >= 2 {
        assert(text[at + 1] == written[1]);
    }
    if written.len() == 6 {
        let code = c as u32;
        assert(text[at + 2] == written[2]);
        assert(text[at + 3] == written[3]);
        assert(text[at + 4] == written[4]);
        assert(text[at + 5] == written[5]);
        assert(code < 0x20);
        assert(digit_of(digit_char((code / 16) as nat)) == Some((code / 16) as nat));
        assert(digit_of(digit_char((code % 16) as nat)) == Some((code % 16) as nat));
        assert((code / 16) * 16 + code % 16 == code);
        assert(((code as nat) as u8) as char == c);
    }
}

/// Escaping a text and a character behind it escapes each.
pub proof fn lemma_escaped_push(text: Seq<char>, c: char)
    ensures
        escaped(text.push(c)) == escaped(text) + escaped_char(c),
    decreases text.len(),
{
    if text.len() == 0 {
        assert(text.push(c).drop_first() =~= Seq::<char>::empty());
        assert(escaped(text.push(c)) =~= escaped_char(c) + escaped(Seq::<char>::empty()));
        assert(escaped(text.push(c)) =~= escaped(text) + escaped_char(c));
    } else {
        lemma_escaped_push(text.drop_first(), c);
        assert(text.push(c).drop_first() =~= text.drop_first().push(c));
        assert(escaped(text.push(c)) =~= escaped(text) + escaped_char(c));
    }
}

/// The characters of a string are read back from between its quotes.
pub proof fn lemma_chars_found(before: Seq<char>, content: Seq<char>, after: Seq<char>)
    ensures
        chars_at(before + escaped(content) + seq!['"'] + after, before.len() as int) == Some(
            (content, (before.len() + escaped(content).len() + 1) as int),
        ),
    decreases content.len(),
{
    let text = before + escaped(content) + seq!['"'] + after;
    let at = before.len() as int;
    if content.len() == 0 {
        assert(text[at] == '"');
    } else {
        let c = content[0];
        let rest = content.drop_first();
        let tail = escaped(rest) + seq!['"'] + after;
        assert(text =~= before + escaped_char(c) + tail);
        lemma_char_found(before, c, tail);
        assert(text[at] == escaped_char(c)[0]);
        let longer = before + escaped_char(c);
        assert(text =~= longer + escaped(rest) + seq!['"'] + after);
        lemma_chars_found(longer, rest, after);
        assert(seq![c] + rest =~= content);
    }
}

/// A string is found again, whatever stands around it.
pub proof fn lemma_string_found(before: Seq<char>, content: Seq<char>, after: Seq<char>)
    ensures
        string_at(before + string_text(content) + after, before.len() as int) == Some(
            (content, (before.len() + string_text(content).len()) as int),
        ),
{
    let text = before + string_text(content) + after;
    let longer = before + seq!['"'];
    assert(text =~= longer + escaped(content) + seq!['"'] + after);
    assert(text[before.len() as int] == '"');
    lemma_chars_found(longer, content, after);
}

/// Appends one character of a string to `out`, escaped.
fn push_escaped_char(out: &mut String, c: char)
    ensures
        final(out)@ == old(out)@ + escaped_char(c),
{
    let code: u32 = c as u32;
    if c == '"' {
        push_char(out, '\\');
        push_char(out, '"');
    } else if c == '\\' {
        push_char(out, '\\');
        push_char(out, '\\');
    } else if c == '\u{8}' {
        push_char(out, '\\');
        push_char(out, 'b');
    } else if c == '\u{c}' {
        push_char(out, '\\');
        push_char(out, 'f');
    } else if c == '\n' {
        push_char(out, '\\');
        push_char(out, 'n');
    } else if c == '\r' {
        push_char(out, '\\');
        push_char(out, 'r');
    } else if c == '\t' {
        push_char(out, '\\');
        push_char(out, 't');
    } else if code < 0x20 {
        push_char(out, '\\');
        push_char(out, 'u');
        push_char(out, '0');
        push_char(out, '0');
        push_char(out, digit_to_char((code / 16) as u8));
        push_char(out, digit_to_char((code % 16) as u8));
    } else {
        push_char(out, c);
    }
    assert(out@ =~= old(out)@ + escaped_char(c));
}

/// Appends a string to `out`: its characters, escaped, in quotes.
pub fn push_string(out: &mut String, text: &str)
    ensures
        final(out)@ == old(out)@ + string_text(text@),
{
    push_char(out, '"');
    let ghost start = out@;
    for c in it: text.chars()
        invariant
            it.seq() == text@,
            out@ == start + escaped(text@.take(it.index() as int)),
    {
        proof {
            let done = text@.take(it.index() as int);
            assert(text@.take(it.index() + 1) =~= done.push(c));
            lemma_escaped_push(done, c);
        }
        push_escaped_char(out, c);
    }
    proof {
        assert(text@.take(text@.len() as int) =~= text@);
    }
    push_char(out, '"');
    assert(out@ =~= old(out)@ + string_text(text@));
}

/// Reads the character of a string that is written at `at`.
fn read_char(text: &Vec<char>, at: usize) -> (r: Option<(char, usize)>)
    ensures
        r matches Some((c, next)) ==> char_at(text@, at as int) == Some((c, next as int)) && at
            < next <= text@.len(),
        r is None ==> char_at(text@, at as int) is None,
{
    let len: usize = text.len();
    if at >= len {
        return None;
    }
    let c: char = text[at];
    if c != '\\' {
        return Some((c, at + 1));
    }
    if len - at < 2 {
        return None;
    }
    let letter: char = text[at + 1];
    if letter == 'u' {
        if len - at < 6 || text[at + 2] != '0' || text[at + 3] != '0' {
            return None;
        }
        let high: u8 = match digit_in(text[at + 4], 16) {
            Some(d) => d as u8,
            None => {
                return None;
            },
        };
        let low: u8 = match digit_in(text[at + 5], 16) {
            Some(d) => d as u8,
            None => {
                return None;
            },
        };
        return Some(((high * 16 + low) as char, at + 6));
    }
    let plain: char = if letter == '"' {
        '"'
    } else if letter == '\\' {
        '\\'
    } else if letter == 'b' {
        '\u{8}'
    } else if letter == 'f' {
        '\u{c}'
    } else if letter == 'n' {
        '\n'
    } else if letter == 'r' {
        '\r'
    } else if letter == 't' {
        '\t'
    } else {
        return None;
    };
    Some((plain, at + 2))
}

/// Reads the string that is written at `at`.
pub fn read_string(text: &Vec<char>, at: usize) -> (r: Option<(String, usize)>)
    ensures
        r matches Some((content, end)) ==> string_at(text@, at as int) == Some(
            (content@, end as int),
        ) && at < end <= text@.len(),
        r is None ==> string_at(text@, at as int) is None,
{
    let len: usize = text.len();
    if at >= len || text[at] != '"' {
        return None;
    }
    let mut content: String = String::new();
    let mut pos: usize = at + 1;
    loop
        invariant
            at < pos <= len,
            len == text@.len(),
            string_at(text@, at as int) == match chars_at(text@, pos as int) {
                Some((rest, end)) => Some((content@ + rest, end)),
                None => None,
            },
        decreases len - pos,
    {
        if pos >= len {
            return None;
        }
        if text[pos] == '"' {
            proof {
                assert(content@ + Seq::<char>::empty() =~= content@);
            }
            return Some((content, pos + 1));
        }
        let (c, next): (char, usize) = match read_char(text, pos) {
            Some(found) => found,
            None => {
                return None;
            },
        };
        proof {
            let rest = chars_at(text@, next as int);
            if rest is Some {
                let more = rest.unwrap().0;
                assert(content@.push(c) + more =~= content@ + (seq![c] + more));
            }
        }
        push_char(&mut content, c);
        pos = next;
    }
}

/// Where the reading of a piece of JSON stands: how many brackets and braces
/// are open, whether it is inside a string, and whether the last character
/// there was a backslash that escapes the next.
#[derive(Clone, Copy, Debug, PartialEq, Eq, Structural)]
pub struct Nesting {
    pub depth: usize,
    pub quoted: bool,
    pub escaping: bool,
}

/// The nesting at the start of a piece.
pub open spec fn outermost() -> Nesting {
    Nesting { depth: 0, quoted: false, escaping: false }
}

/// The nesting behind the character `c`, or `None` where the piece ends
/// before it: at a line feed, at a comma outside every bracket, or at a
/// closing bracket that none opened. A depth that cannot be counted ends it
/// too.
pub open spec fn nesting_after(state: Nesting, c: char) -> Option<Nesting> {
    if c == '\n' {
        None
    } else if state.quoted {
        if state.escaping {
            Some(Nesting { escaping: false, ..state })
        } else if c == '\\' {
            Some(Nesting { escaping: true, ..state })
        } else if c == '"' {
            Some(Nesting { quoted: false, ..state })
        } else {
            Some(state)
        }
    } else if c == '"' {
        Some(Nesting { quoted: true, ..state })
    } else if c == '[' || c == '{' {
        if state.depth < usize::MAX {
            Some(Nesting { depth: (state.depth + 1) as usize, ..state })
        } else {
            None
        }
    } else if c == ']' || c == '}' {
        if state.depth > 0 {
            Some(Nesting { depth: (state.depth - 1) as usize, ..state })
        } else {
            None
        }
    } else if c == ',' {
        if state.depth > 0 {
            Some(state)
        } else {
            None
        }
    } else {
        Some(state)
    }
}

/// Where the piece that is read from `at` on in the given nesting ends, and
/// the nesting there.
pub open spec fn piece_end(text: Seq<char>, at: int, state: Nesting) -> (int, Nesting)
    decreases text.len() - at,
{
    if at < 0 || at >= text.len() {
        (at, state)
    } else {
        match nesting_after(state, text[at]) {
            Some(next) => piece_end(text, at + 1, next),
            None => (at, state),
        }
    }
}

/// Whether a text is one element of a list: not empty, on one line, every
/// string and bracket in it closed, and no comma or closing bracket outside
/// them. What the element means is not looked at.
pub open spec fn is_element(text: Seq<char>) -> bool {
    text.len() > 0 && piece_end(text, 0, outermost()) == (text.len() as int, outermost())
}

/// The element that is written at `at`, with the position behind it.
pub open spec fn element_at(text: Seq<char>, at: int) -> Option<(Seq<char>, int)> {
    let (end, state) = piece_end(text, at, outermost());
    if 0 <= at < end && state == outermost() {
        Some((text.subrange(at, end), end))
    } else {
        None
    }
}

/// A piece ends within the text, at or behind its start.
pub proof fn lemma_piece_end_bounds(text: Seq<char>, at: int, state: Nesting)
    requires
        0 <= at <= text.len(),
    ensures
        at <= piece_end(text, at, state).0 <= text.len(),
    decreases text.len() - at,
{
    if at < text.len() {
        match nesting_after(state, text[at]) {
            Some(next) => lemma_piece_end_bounds(text, at + 1, next),
            None => {},
        }
    }
}

/// A piece that is read to its end alone is read to the same end where it
/// stands inside a longer text, if the character behind it ends it.
pub proof fn lemma_piece_embedded(
    before: Seq<char>,
    piece: Seq<char>,
    after: Seq<char>,
    k: int,
    state: Nesting,
)
    requires
        0 <= k <= piece.len(),
        piece_end(piece, k, state).0 == piece.len(),
        after.len() > 0,
        nesting_after(piece_end(piece, k, state).1, after[0]) is None,
    ensures
        piece_end(before + piece + after, before.len() + k, state) == (
            (before.len() + piece.len()) as int,
            piece_end(piece, k, state).1,
        ),
    decreases piece.len() - k,
{
    let text = before + piece + after;
    if k == piece.len() {
        assert(text[before.len() + k] == after[0]);
    } else {
        assert(text[before.len() + k] == piece[k]);
        match nesting_after(state, piece[k]) {
            Some(next) => {
                lemma_piece_embedded(before, piece, after, k + 1, next);
            },
            None => {},
        }
    }
}

/// An element is found again, whatever stands before it, if a comma or a
/// closing bracket follows it.
pub proof fn lemma_element_found(before: Seq<char>, element: Seq<char>, after: Seq<char>)
    requires
        is_element(element),
        after.len() > 0,
        after[0] == ',' || after[0] == ']',
    ensures
        element_at(before + element + after, before.len() as int) == Some(
            (element, (before.len() + element.len()) as int),
        ),
{
    let text = before + element + after;
    lemma_piece_embedded(before, element, after, 0, outermost());
    assert(text.subrange(before.len() as int, (before.len() + element.len()) as int) =~= element);
}

/// Computes `nesting_after`.
fn step_nesting(state: Nesting, c: char) -> (r: Option<Nesting>)
    ensures
        r == nesting_after(state, c),
{
    if c == '\n' {
        None
    } else if state.quoted {
        if state.escaping {
            Some(Nesting { depth: state.depth, quoted: true, escaping: false })
        } else if c == '\\' {
            Some(Nesting { depth: state.depth, quoted: true, escaping: true })
        } else if c == '"' {
            Some(Nesting { depth: state.depth, quoted: false, escaping: state.escaping })
        } else {
            Some(state)
        }
    } else if c == '"' {
        Some(Nesting { depth: state.depth, quoted: true, escaping: state.escaping })
    } else if c == '[' || c == '{' {
        if state.depth < usize::MAX {
            Some(Nesting { depth: state.depth + 1, quoted: false, escaping: state.escaping })
        } else {
            None
        }
    } else if c == ']' || c == '}' {
        if state.depth > 0 {
            Some(Nesting { depth: state.depth - 1, quoted: false, escaping: state.escaping })
        } else {
            None
        }
    } else if c == ',' {
        if state.depth > 0 {
            Some(state)
        } else {
            None
        }
    } else {
        Some(state)
    }
}

/// Finds the end of the element that is written at `at`.
pub fn read_element(text: &Vec<char>, at: usize) -> (r: Option<usize>)
    ensures
        r matches Some(end) ==> element_at(text@, at as int) == Some(
            (text@.subrange(at as int, end as int), end as int),
        ) && at < end <= text@.len(),
        r is None ==> element_at(text@, at as int) is None,
{
    let len: usize = text.len();
    let mut pos: usize = at;
    let mut state = Nesting { depth: 0, quoted: false, escaping: false };
    let mut ended: bool = false;
    while pos < len && !ended
        invariant
            at <= pos,
            pos <= len || pos == at,
            len == text@.len(),
            piece_end(text@, at as int, outermost()) == piece_end(text@, pos as int, state),
            ended ==> piece_end(text@, pos as int, state) == (pos as int, state),
        decreases len - pos + (if ended { 0int } else { 1int }),
    {
        match step_nesting(state, text[pos]) {
            Some(next) => {
                state = next;
                pos = pos + 1;
            },
            None => {
                ended = true;
            },
        }
    }
    if pos > at && pos <= len && state.depth == 0 && !state.quoted && !state.escaping {
        Some(pos)
    } else {
        None
    }
}

/// Decides whether a text is one element of a list.
pub fn check_element(text: &str) -> (ok: bool)
    ensures
        ok == is_element(text@),
{
    let chars: Vec<char> = chars_of(text);
    proof {
        lemma_piece_end_bounds(chars@, 0, outermost());
    }
    match read_element(&chars, 0) {
        Some(end) => end == chars.len(),
        None => false,
    }
}

/// The elements of a list as text, with a comma between two.
pub open spec fn elements_text(items: Seq<Seq<char>>) -> Seq<char>
    decreases items.len(),
{
    if items.len() == 0 {
        Seq::<char>::empty()
    } else if items.len() == 1 {
        items[0]
    } else {
        items[0] + seq![','] + elements_text(items.drop_first())
    }
}

/// A list of elements as text: its elements in square brackets.
pub open spec fn element_list_text(items: Seq<Seq<char>>) -> Seq<char> {
    seq!['['] + elements_text(items) + seq![']']
}

/// The elements that are written from `at` on up to the closing bracket,
/// with the position behind the bracket.
pub open spec fn elements_at(text: Seq<char>, at: int) -> Option<(Seq<Seq<char>>, int)>
    decreases text.len() - at,
{
    match element_at(text, at) {
        Some((element, end)) => {
            if end < text.len() && text[end] == ',' {
                match elements_at(text, end + 1) {
                    Some((rest, behind)) => Some((seq![element] + rest, behind)),
                    None => None,
                }
            } else if end < text.len() && text[end] == ']' {
                Some((seq![element], end + 1))
            } else {
                None
            }
        },
        None => None,
    }
}

/// The list of elements that is written at `at`, with the position behind
/// it.
pub open spec fn element_list_at(text: Seq<char>, at: int) -> Option<(Seq<Seq<char>>, int)> {
    if 0 <= at && at + 1 < text.len() && text[at] == '[' {
        if text[at + 1] == ']' {
            Some((Seq::<Seq<char>>::empty(), at + 2))
        } else {
            elements_at(text, at + 1)
        }
    } else {
        None
    }
}

/// Whether each text is an element.
pub open spec fn all_elements(items: Seq<Seq<char>>) -> bool {
    forall|i: int| 0 <= i < items.len() ==> is_element(#[trigger] items[i])
}

/// The elements of a list are found again before its closing bracket.
pub proof fn lemma_elements_found(before: Seq<char>, items: Seq<Seq<char>>, after: Seq<char>)
    requires
        items.len() > 0,
        all_elements(items),
    ensures
        elements_at(before + elements_text(items) + seq![']'] + after, before.len() as int) == Some(
            (items, (before.len() + elements_text(items).len() + 1) as int),
        ),
    decreases items.len(),
{
    let text = before + elements_text(items) + seq![']'] + after;
    let first = items[0];
    let at = before.len() as int;
    let end = at + first.len();
    assert(is_element(first));
    if items.len() == 1 {
        let tail = seq![']'] + after;
        assert(text =~= before + first + tail);
        lemma_element_found(before, first, tail);
        assert(text[end] == ']');
        assert(seq![first] =~= items);
    } else {
        let rest = items.drop_first();
        let tail = seq![','] + elements_text(rest) + seq![']'] + after;
        assert(text =~= before + first + tail);
        lemma_element_found(before, first, tail);
        assert(text[end] == ',');
        let longer = before + first + seq![','];
        assert(text =~= longer + elements_text(rest) + seq![']'] + after);
        assert forall|i: int| 0 <= i < rest.len() implies is_element(#[trigger] rest[i]) by {
            assert(rest[i] == items[i + 1]);
        }
        lemma_elements_found(longer, rest, after);
        assert(seq![first] + rest =~= items);
    }
}

/// A list of elements is found again, whatever stands around it.
pub proof fn lemma_element_list_found(before: Seq<char>, items: Seq<Seq<char>>, after: Seq<char>)
    requires
        all_elements(items),
    ensures
        element_list_at(before + element_list_text(items) + after, before.len() as int) == Some(
            (items, (before.len() + element_list_text(items).len()) as int),
        ),
{
    let text = before + element_list_text(items) + after;
    let at = before.len() as int;
    assert(text[at] == '[');
    if items.len() == 0 {
        assert(text[at + 1] == ']');
        assert(items =~= Seq::<Seq<char>>::empty());
    } else {
        let longer = before + seq!['['];
        assert(text =~= longer + elements_text(items) + seq![']'] + after);
        let first = items[0];
        assert(is_element(first));
        assert(elements_text(items)[0] == first[0]);
        assert(text[at + 1] == first[0]);
        assert(nesting_after(outermost(), ']') is None);
        lemma_elements_found(longer, items, after);
    }
}

/// Appends a list of elements to `out`.
pub fn push_elements(out: &mut String, items: &Vec<String>)
    ensures
        final(out)@ == old(out)@ + element_list_text(items.deep_view()),
{
    push_char(out, '[');
    let ghost start = out@;
    let ghost all = items.deep_view();
    let len: usize = items.len();
    let mut i: usize = 0;
    proof {
        assert(all.skip(0) =~= all);
    }
    while i < len
        invariant
            i <= len,
            len == items@.len(),
            all == items.deep_view(),
            start + elements_text(all) == out@ + (if i == 0 || i == len {
                Seq::<char>::empty()
            } else {
                seq![',']
            }) + elements_text(all.skip(i as int)),
        decreases len - i,
    {
        let ghost rest = all.skip(i as int);
        proof {
            assert(rest[0] == all[i as int]);
            assert(all[i as int] == items[i as int]@);
            assert(rest.drop_first() =~= all.skip(i + 1));
        }
        if i > 0 {
            push_char(out, ',');
        }
        push_text(out, items[i].as_str());
        i = i + 1;
        proof {
            if i == len {
                assert(elements_text(all.skip(i as int)) =~= Seq::<char>::empty());
                assert(start + elements_text(all) =~= out@ + Seq::<char>::empty() + elements_text(
                    all.skip(i as int),
                ));
            } else {
                assert(start + elements_text(all) =~= out@ + seq![','] + elements_text(
                    all.skip(i as int),
                ));
            }
        }
    }
    proof {
        assert(all.skip(len as int) =~= Seq::<Seq<char>>::empty());
        assert(out@ =~= start + elements_text(all));
    }
    push_char(out, ']');
    proof {
        assert(out@ =~= old(out)@ + element_list_text(all));
    }
}

/// Copies the characters from `from` up to `to`.
pub fn copy_text(text: &Vec<char>, from: usize, to: usize) -> (out: String)
    requires
        from <= to <= text@.len(),
    ensures
        out@ == text@.subrange(from as int, to as int),
{
    let mut out: String = String::new();
    let mut i: usize = from;
    while i < to
        invariant
            from <= i <= to <= text@.len(),
            out@ == text@.subrange(from as int, i as int),
        decreases to - i,
    {
        push_char(&mut out, text[i]);
        i = i + 1;
        assert(out@ =~= text@.subrange(from as int, i as int));
    }
    out
}

/// Reads the list of elements that is written at `at`.
pub fn read_elements(text: &Vec<char>, at: usize) -> (r: Option<(Vec<String>, usize)>)
    ensures
        r matches Some((items, end)) ==> element_list_at(text@, at as int) == Some(
            (items.deep_view(), end as int),
        ) && at < end <= text@.len(),
        r is None ==> element_list_at(text@, at as int) is None,
{
    let len: usize = text.len();
    if at >= len || len - at < 2 || text[at] != '[' {
        return None;
    }
    let mut items: Vec<String> = Vec::new();
    if text[at + 1] == ']' {
        assert(items.deep_view() =~= Seq::<Seq<char>>::empty());
        return Some((items, at + 2));
    }
    let mut pos: usize = at + 1;
    loop
        invariant
            at < pos <= len,
            len == text@.len(),
            element_list_at(text@, at as int) == match elements_at(text@, pos as int) {
                Some((rest, behind)) => Some((items.deep_view() + rest, behind)),
                None => None,
            },
        decreases len - pos,
    {
        let end: usize = match read_element(text, pos) {
            Some(end) => end,
            None => {
                return None;
            },
        };
        if end >= len {
            return None;
        }
        let ghost read = items.deep_view();
        let element: String = copy_text(text, pos, end);
        items.push(element);
        proof {
            assert(items.deep_view() =~= read.push(text@.subrange(pos as int, end as int)));
        }
        if text[end] == ',' {
            proof {
                let rest = elements_at(text@, end + 1);
                if rest is Some {
                    let more = rest.unwrap().0;
                    assert(items.deep_view() + more =~= read + (seq![
                        text@.subrange(pos as int, end as int),
                    ] + more));
                }
            }
            pos = end + 1;
        } else if text[end] == ']' {
            proof {
                assert(items.deep_view() =~= read + seq![text@.subrange(pos as int, end as int)]);
            }
            return Some((items, end + 1));
        } else {
            return None;
        }
    }
}

/// Whether a text lies on one line: it holds no line feed.
pub open spec fn on_one_line(text: Seq<char>) -> bool {
    forall|i: int| 0 <= i < text.len() ==> #[trigger] text[i] != '\n'
}

/// A number in decimal lies on one line.
pub proof fn lemma_decimal_on_one_line(n: nat)
    ensures
        on_one_line(decimal(n)),
{
    lemma_digits_of_value(n, 10);
    assert forall|i: int| 0 <= i < decimal(n).len() implies #[trigger] decimal(n)[i] != '\n' by {
        assert(is_digit(decimal(n)[i], 10));
    }
}

/// A list of numbers lies on one line.
pub proof fn lemma_list_on_one_line(items: Seq<u64>)
    ensures
        on_one_line(items_text(items)),
        on_one_line(list_text(items)),
    decreases items.len(),
{
    if items.len() > 0 {
        lemma_decimal_on_one_line(items[0] as nat);
        if items.len() > 1 {
            lemma_list_on_one_line(items.drop_first());
        }
    }
}

/// The characters of a string lie on one line as they are written.
pub proof fn lemma_string_on_one_line(content: Seq<char>)
    ensures
        on_one_line(escaped(content)),
        on_one_line(string_text(content)),
    decreases content.len(),
{
    if content.len() > 0 {
        let c = content[0];
        let code = c as u32;
        if code < 0x20 {
            assert(digit_char((code / 16) as nat) != '\n');
            assert(digit_char((code % 16) as nat) != '\n');
        }
        assert(on_one_line(escaped_char(c)));
        lemma_string_on_one_line(content.drop_first());
    }
}

/// A piece that is read to the end of its text holds no line feed from where
/// the reading starts.
pub proof fn lemma_piece_on_one_line(text: Seq<char>, at: int, state: Nesting)
    requires
        0 <= at <= text.len(),
        piece_end(text, at, state).0 == text.len(),
    ensures
        forall|i: int| at <= i < text.len() ==> #[trigger] text[i] != '\n',
    decreases text.len() - at,
{
    if at < text.len() {
        match nesting_after(state, text[at]) {
            Some(next) => {
                lemma_piece_on_one_line(text, at + 1, next);
            },
            None => {},
        }
    }
}

/// A list of elements lies on one line.
pub proof fn lemma_elements_on_one_line(items: Seq<Seq<char>>)
    requires
        all_elements(items),
    ensures
        on_one_line(elements_text(items)),
        on_one_line(element_list_text(items)),
    decreases items.len(),
{
    if items.len() > 0 {
        assert(is_element(items[0]));
        lemma_piece_on_one_line(items[0], 0, outermost());
        if items.len() > 1 {
            let rest = items.drop_first();
            assert forall|i: int| 0 <= i < rest.len() implies is_element(#[trigger] rest[i]) by {
                assert(rest[i] == items[i + 1]);
            }
            lemma_elements_on_one_line(rest);
        }
    }
}

} // verus!
