//! Reading numbers from text.

use vstd::prelude::*;
use vstd::string::*;

verus! {

/// The value of `c` as a digit: `0`-`9`, then the letters from ten on, in
/// either case. Other characters have none.
pub open spec fn digit_of(c: char) -> Option<nat> {
    if '0' <= c && c <= '9' {
        Some((c as u32 - '0' as u32) as nat)
    } else if 'a' <= c && c <= 'z' {
        Some((c as u32 - 'a' as u32 + 10) as nat)
    } else if 'A' <= c && c <= 'Z' {
        Some((c as u32 - 'A' as u32 + 10) as nat)
    } else {
        None
    }
}

/// Whether `c` is a digit of the given radix.
pub open spec fn is_digit(c: char, radix: nat) -> bool {
    digit_of(c) matches Some(d) && d < radix
}

/// The number that a sequence of digits denotes in `radix`, the most
/// significant digit first.
pub open spec fn digits_value(digits: Seq<char>, radix: nat) -> nat
    decreases digits.len(),
{
    if digits.len() == 0 {
        0
    } else {
        digits_value(digits.drop_last(), radix) * radix + digit_of(digits.last()).unwrap_or(0)
    }
}

/// The text without the one `+` that may lead it.
pub open spec fn unsigned_part(text: Seq<char>) -> Seq<char> {
    if text.len() > 0 && text[0] == '+' {
        text.skip(1)
    } else {
        text
    }
}

/// What a numeral denotes: an optional `+`, then at least one digit of the
/// radix and nothing else, with a value of at most `max`.
pub open spec fn numeral_value(text: Seq<char>, radix: nat, max: nat) -> Option<nat> {
    let digits = unsigned_part(text);
    if digits.len() > 0 && (forall|i: int|
        0 <= i < digits.len() ==> is_digit(#[trigger] digits[i], radix)) && digits_value(
        digits,
        radix,
    ) <= max {
        Some(digits_value(digits, radix))
    } else {
        None
    }
}

/// The text without its `_` characters.
pub open spec fn without_separators(text: Seq<char>) -> Seq<char>
    decreases text.len(),
{
    if text.len() == 0 {
        text
    } else if text.last() == '_' {
        without_separators(text.drop_last())
    } else {
        without_separators(text.drop_last()).push(text.last())
    }
}

/// Whether the text starts with `0x`.
pub open spec fn has_hex_prefix(text: Seq<char>) -> bool {
    text.len() >= 2 && text[0] == '0' && text[1] == 'x'
}

/// What an integer argument of a shell command denotes. With a leading `0x`
/// the rest is read in base 16, else the whole in base 10; `_` may separate
/// digits anywhere and is dropped before reading.
pub open spec fn int_literal(text: Seq<char>) -> Option<nat> {
    if has_hex_prefix(text) {
        numeral_value(without_separators(text.skip(2)), 16, usize::MAX as nat)
    } else {
        numeral_value(without_separators(text), 10, usize::MAX as nat)
    }
}

/// A run of digits denotes no smaller a number than any start of it.
pub proof fn lemma_digits_value_grows(digits: Seq<char>, radix: nat, k: int)
    requires
        radix >= 1,
        0 <= k <= digits.len(),
    ensures
        digits_value(digits.take(k), radix) <= digits_value(digits, radix),
    decreases digits.len(),
{
    if k == digits.len() {
        assert(digits.take(k) =~= digits);
    } else {
        lemma_digits_value_grows(digits.drop_last(), radix, k);
        assert(digits.drop_last().take(k) =~= digits.take(k));
        let shorter = digits_value(digits.drop_last(), radix);
        assert(shorter <= shorter * radix) by (nonlinear_arith)
            requires
                radix >= 1,
        ;
    }
}

/// Computes `digit_of`, narrowed to the radix.
pub fn digit_in(c: char, radix: u32) -> (r: Option<u32>)
    requires
        radix <= 36,
    ensures
        r is Some == is_digit(c, radix as nat),
        r matches Some(d) ==> digit_of(c) == Some(d as nat) && d < radix,
{
    let d: u32 = if '0' <= c && c <= '9' {
        c as u32 - '0' as u32
    } else if 'a' <= c && c <= 'z' {
        c as u32 - 'a' as u32 + 10
    } else if 'A' <= c && c <= 'Z' {
        c as u32 - 'A' as u32 + 10
    } else {
        return None;
    };
    if d < radix {
        Some(d)
    } else {
        None
    }
}

/// Copies the characters from `start` on, leaving out every `_`.
fn strip_separators(text: &Vec<char>, start: usize) -> (out: Vec<char>)
    requires
        start <= text@.len(),
    ensures
        out@ == without_separators(text@.skip(start as int)),
{
    let len: usize = text.len();
    let ghost body = text@.skip(start as int);
    let mut out: Vec<char> = Vec::new();
    let mut i: usize = start;
    while i < len
        invariant
            start <= i <= len,
            len == text@.len(),
            body == text@.skip(start as int),
            out@ == without_separators(body.take(i - start)),
        decreases len - i,
    {
        let c: char = text[i];
        proof {
            let longer = body.take(i + 1 - start);
            assert(longer.drop_last() =~= body.take(i - start));
            assert(longer.last() == c);
        }
        if c != '_' {
            out.push(c);
        }
        i = i + 1;
    }
    proof {
        assert(body.take(len - start) =~= body);
    }
    out
}

/// Reads a whole text as a numeral of the given radix that denotes at most
/// `max`.
pub fn read_numeral(text: &Vec<char>, radix: u32, max: u64) -> (r: Option<u64>)
    requires
        2 <= radix <= 36,
    ensures
        r matches Some(v) ==> numeral_value(text@, radix as nat, max as nat) == Some(v as nat),
        r is None ==> numeral_value(text@, radix as nat, max as nat) is None,
{
    let len: usize = text.len();
    let first: usize = if len > 0 && text[0] == '+' {
        1
    } else {
        0
    };
    let ghost digits = unsigned_part(text@);
    assert(digits =~= text@.skip(first as int));
    if first == len {
        return None;
    }
    let mut i: usize = first;
    let mut acc: u64 = 0;
    while i < len
        invariant
            first <= i <= len,
            len == text@.len(),
            2 <= radix <= 36,
            digits == unsigned_part(text@),
            digits == text@.skip(first as int),
            forall|j: int| 0 <= j < i - first ==> is_digit(#[trigger] digits[j], radix as nat),
            acc == digits_value(digits.take(i - first), radix as nat),
            acc <= max,
        decreases len - i,
    {
        let c: char = text[i];
        let ghost longer = digits.take(i + 1 - first);
        proof {
            assert(longer.drop_last() =~= digits.take(i - first));
            assert(longer.last() == c);
            assert(digits[i - first] == c);
        }
        let d: u32 = match digit_in(c, radix) {
            Some(d) => d,
            None => {
                return None;
            },
        };
        assert(acc * radix <= 0xffff_ffff_ffff_ffff * 36) by (nonlinear_arith)
            requires
                acc <= 0xffff_ffff_ffff_ffff,
                radix <= 36,
        ;
        let wide: u128 = acc as u128 * radix as u128 + d as u128;
        if wide > max as u128 {
            proof {
                lemma_digits_value_grows(digits, radix as nat, i + 1 - first);
            }
            return None;
        }
        acc = wide as u64;
        i = i + 1;
    }
    proof {
        assert(digits.take(len - first) =~= digits);
    }
    Some(acc)
}

/// The characters of a text.
pub fn chars_of(text: &str) -> (chars: Vec<char>)
    ensures
        chars@ == text@,
{
    let mut chars: Vec<char> = Vec::new();
    for c in it: text.chars()
        invariant
            chars@ == it.seq().take(it.index() as int),
            it.seq() == text@,
    {
        chars.push(c);
        assert(chars@ =~= it.seq().take(it.index() + 1));
    }
    assert(chars@ =~= text@);
    chars
}

/// Reads a whole text as a decimal number of 64 bits.
pub fn parse_decimal(text: &str) -> (r: Option<u64>)
    ensures
        r matches Some(v) ==> numeral_value(text@, 10, u64::MAX as nat) == Some(v as nat),
        r is None ==> numeral_value(text@, 10, u64::MAX as nat) is None,
{
    let chars: Vec<char> = chars_of(text);
    read_numeral(&chars, 10, u64::MAX)
}

/// Reads an integer argument of a shell command: decimal, or hexadecimal
/// after `0x`, with `_` allowed between the digits. `None` where the text is
/// no such number or the number does not fit.
pub fn parse_int(s: &str) -> (r: Option<usize>)
    ensures
        r matches Some(v) ==> int_literal(s@) == Some(v as nat),
        r is None ==> int_literal(s@) is None,
{
    let chars: Vec<char> = chars_of(s);
    let hex: bool = chars.len() >= 2 && chars[0] == '0' && chars[1] == 'x';
    let (start, radix): (usize, u32) = if hex {
        (2, 16)
    } else {
        (0, 10)
    };
    proof {
        assert(s@.skip(0) =~= s@);
    }
    let body: Vec<char> = strip_separators(&chars, start);
    match read_numeral(&body, radix, usize::MAX as u64) {
        Some(v) => Some(v as usize),
        None => None,
    }
}

} // verus!
