//! Building and comparing text.

use vstd::prelude::*;
use vstd::string::*;

use crate::numeral::{chars_of, digit_of, digits_value, is_digit, numeral_value, unsigned_part};

verus! {

/// `String::push` of std: appends one character to the text.
#[verifier::external_body]
pub(crate) fn push_char(text: &mut String, c: char)
    ensures
        final(text)@ == old(text)@.push(c),
{
    text.push(c)
}

/// Decides whether two texts hold the same characters.
pub fn same_text(a: &str, b: &str) -> (same: bool)
    ensures
        same == (a@ == b@),
{
    let left: Vec<char> = chars_of(a);
    let right: Vec<char> = chars_of(b);
    let len: usize = left.len();
    if right.len() != len {
        return false;
    }
    let mut i: usize = 0;
    while i < len
        invariant
            i <= len,
            len == left@.len(),
            len == right@.len(),
            left@ == a@,
            right@ == b@,
            forall|j: int| 0 <= j < i ==> left@[j] == right@[j],
        decreases len - i,
    {
        if left[i] != right[i] {
            return false;
        }
        i = i + 1;
    }
    assert(left@ =~= right@);
    true
}

/// The character that stands for a digit below 16, letters in lower case.
pub open spec fn digit_char(d: nat) -> char
    recommends
        d < 16,
{
    if d < 10 {
        ('0' as u32 + d) as char
    } else {
        ('a' as u32 + d - 10) as char
    }
}

/// The digits of `n` in `radix`, the most significant first; one `0` for
/// zero.
pub open spec fn digits_of(n: nat, radix: nat) -> Seq<char>
    recommends
        2 <= radix <= 16,
    decreases n,
{
    if n < radix || radix < 2 {
        seq![digit_char(n)]
    } else {
        proof {
            lemma_quotient_smaller(n, radix);
        }
        digits_of(n / radix, radix).push(digit_char(n % radix))
    }
}

/// `n` in decimal.
pub open spec fn decimal(n: nat) -> Seq<char> {
    digits_of(n, 10)
}

/// `n` in hexadecimal with lower-case letters, filled up with `0` on the
/// left to at least `width` characters.
pub open spec fn hex_padded(n: nat, width: nat) -> Seq<char> {
    let digits = digits_of(n, 16);
    if digits.len() < width {
        Seq::new((width - digits.len()) as nat, |i: int| '0') + digits
    } else {
        digits
    }
}

/// Dividing by two or more makes a positive number smaller.
pub proof fn lemma_quotient_smaller(n: nat, radix: nat)
    requires
        radix >= 2,
        n >= 1,
    ensures
        n / radix < n,
{
    assert(n / radix < n) by (nonlinear_arith)
        requires
            radix >= 2,
            n >= 1,
    ;
}

/// Computes `digit_char`.
pub fn digit_to_char(d: u8) -> (c: char)
    requires
        d < 16,
    ensures
        c == digit_char(d as nat),
        digit_of(c) == Some(d as nat),
{
    if d < 10 {
        (0x30 + d) as char
    } else {
        (0x61 + (d - 10)) as char
    }
}

/// Every character of `digits_of` is a digit of the radix, and together
/// they denote the number again.
pub proof fn lemma_digits_of_value(n: nat, radix: nat)
    requires
        2 <= radix <= 16,
    ensures
        digits_of(n, radix).len() > 0,
        forall|i: int|
            0 <= i < digits_of(n, radix).len() ==> is_digit(#[trigger] digits_of(n, radix)[i], radix),
        digits_value(digits_of(n, radix), radix) == n,
    decreases n,
{
    let text = digits_of(n, radix);
    if n < radix {
        assert(text.drop_last() =~= Seq::<char>::empty());
        assert(digits_value(text.drop_last(), radix) == 0);
        assert(digits_value(text, radix) == 0 * radix + n);
    } else {
        lemma_digits_of_value(n / radix, radix);
        let head = digits_of(n / radix, radix);
        assert(text.drop_last() =~= head);
        assert(text.last() == digit_char(n % radix));
        assert(n == (n / radix) * radix + n % radix) by (nonlinear_arith)
            requires
                radix >= 2,
        ;
        assert forall|i: int| 0 <= i < text.len() implies is_digit(#[trigger] text[i], radix) by {
            if i < head.len() {
                assert(text[i] == head[i]);
            }
        }
    }
}

/// A number written in decimal reads back as itself.
pub proof fn lemma_decimal_reads_back(n: nat, max: nat)
    requires
        n <= max,
    ensures
        numeral_value(decimal(n), 10, max) == Some(n),
{
    lemma_digits_of_value(n, 10);
    let text = decimal(n);
    assert(is_digit(text[0], 10));
    assert(unsigned_part(text) == text);
}

/// Appends `n` in the given radix to `out`.
fn push_digits(out: &mut String, n: u64, radix: u64)
    requires
        2 <= radix <= 16,
    ensures
        final(out)@ == old(out)@ + digits_of(n as nat, radix as nat),
    decreases n,
{
    if n >= radix {
        proof {
            lemma_quotient_smaller(n as nat, radix as nat);
        }
        push_digits(out, n / radix, radix);
    }
    let last: u64 = n % radix;
    assert(last < radix && (n < radix ==> last == n)) by (nonlinear_arith)
        requires
            last == n % radix,
            radix >= 2,
    ;
    push_char(out, digit_to_char(last as u8));
    proof {
        let all = digits_of(n as nat, radix as nat);
        if n >= radix {
            assert(old(out)@ + all =~= (old(out)@ + digits_of((n / radix) as nat, radix as nat)).push(
                digit_char((n % radix) as nat),
            ));
        } else {
            assert(old(out)@ + all =~= old(out)@.push(digit_char(n as nat)));
        }
    }
}

/// Appends `n` in decimal to `out`.
pub fn push_decimal(out: &mut String, n: u64)
    ensures
        final(out)@ == old(out)@ + decimal(n as nat),
{
    push_digits(out, n, 10)
}

/// Counts the digits of `n` in the given radix.
fn count_digits(n: u64, radix: u64) -> (count: usize)
    requires
        2 <= radix <= 16,
    ensures
        count == digits_of(n as nat, radix as nat).len(),
        1 <= count <= 64,
    decreases n,
{
    if n >= radix {
        proof {
            lemma_quotient_smaller(n as nat, radix as nat);
            lemma_digit_count_bounded(n as nat, radix as nat);
        }
        let shorter: usize = count_digits(n / radix, radix);
        shorter + 1
    } else {
        1
    }
}

/// A number below 2^64 has at most 64 digits.
proof fn lemma_digit_count_bounded(n: nat, radix: nat)
    requires
        2 <= radix <= 16,
        n <= u64::MAX,
    ensures
        digits_of(n, radix).len() <= 64,
{
    vstd::arithmetic::power2::lemma2_to64();
    lemma_digit_count(n, radix, 64);
}

/// A number below 2^bits has at most `bits` digits.
proof fn lemma_digit_count(n: nat, radix: nat, bits: nat)
    requires
        2 <= radix <= 16,
        bits >= 1,
        n < vstd::arithmetic::power2::pow2(bits),
    ensures
        digits_of(n, radix).len() <= bits,
    decreases n,
{
    if n >= radix {
        lemma_quotient_smaller(n, radix);
        vstd::arithmetic::power2::lemma_pow2_unfold(bits);
        if bits == 1 {
            vstd::arithmetic::power2::lemma2_to64();
        } else {
            assert(n / radix <= n / 2) by (nonlinear_arith)
                requires
                    radix >= 2,
            ;
            assert(n / radix < vstd::arithmetic::power2::pow2((bits - 1) as nat));
            lemma_digit_count(n / radix, radix, (bits - 1) as nat);
        }
    }
}

/// Appends `n` in hexadecimal to `out`, filled up with `0` on the left to
/// at least `width` characters.
pub fn push_hex_padded(out: &mut String, n: u64, width: usize)
    ensures
        final(out)@ == old(out)@ + hex_padded(n as nat, width as nat),
{
    let count: usize = count_digits(n, 16);
    let mut filled: usize = count;
    let ghost zeros = |i: int| '0';
    while filled < width
        invariant
            count <= filled,
            filled <= width || filled == count,
            zeros == (|i: int| '0'),
            out@ == old(out)@ + Seq::new((filled - count) as nat, zeros),
        decreases width - filled,
    {
        push_char(out, '0');
        filled = filled + 1;
        assert(out@ =~= old(out)@ + Seq::new((filled - count) as nat, zeros));
    }
    push_digits(out, n, 16);
    proof {
        let digits = digits_of(n as nat, 16);
        if digits.len() < width {
            assert(out@ =~= old(out)@ + (Seq::new((width - digits.len()) as nat, zeros) + digits));
        } else {
            assert(out@ =~= old(out)@ + digits);
        }
    }
}

/// Appends the characters of `more` to `out`.
pub fn push_text(out: &mut String, more: &str)
    ensures
        final(out)@ == old(out)@ + more@,
{
    out.append(more);
}

} // verus!
