//! Text as sequences of characters: comparison, prefixes, and whole numbers
//! in decimal notation.

use vstd::prelude::*;

verus! {

/// `String::push`: appends one character.
#[verifier::external_body]
pub(crate) fn push_char(text: &mut String, c: char)
    ensures
        final(text)@ == old(text)@.push(c),
{
    text.push(c)
}

/// The characters of a text.
pub fn chars_of(text: &str) -> (chars: Vec<char>)
    ensures
        chars@ == text@,
{
    let mut chars: Vec<char> = Vec::new();
    for c in it: text.chars()
        invariant
            chars@ == it.seq().take(it.index()),
            it.seq() == text@,
    {
        chars.push(c);
    }
    chars
}

/// Whether two texts hold the same characters.
pub fn same_text(a: &str, b: &str) -> (r: bool)
    ensures
        r == (a@ == b@),
{
    let left: String = a.to_owned();
    let right: String = b.to_owned();
    left == right
}

/// Whether `text` begins with `prefix`.
pub open spec fn has_prefix(text: Seq<char>, prefix: Seq<char>) -> bool {
    prefix.len() <= text.len() && text.subrange(0, prefix.len() as int) == prefix
}

/// Whether `text` begins with `prefix`.
pub fn starts_with(text: &str, prefix: &str) -> (r: bool)
    ensures
        r == has_prefix(text@, prefix@),
{
    let whole = chars_of(text);
    let head = chars_of(prefix);
    if head.len() > whole.len() {
        return false;
    }
    let mut i: usize = 0;
    while i < head.len()
        invariant
            i <= head.len() <= whole.len(),
            whole@ == text@,
            head@ == prefix@,
            forall|j: int| 0 <= j < i ==> whole[j] == head[j],
        decreases head.len() - i,
    {
        if whole[i] != head[i] {
            assert(text@.subrange(0, prefix@.len() as int)[i as int] != prefix@[i as int]);
            return false;
        }
        i = i + 1;
    }
    assert(text@.subrange(0, prefix@.len() as int) =~= prefix@);
    true
}

/// Whether a character is a decimal digit.
pub open spec fn is_digit(c: char) -> bool {
    '0' <= c && c <= '9'
}

/// The value of a decimal digit.
pub open spec fn digit_of(c: char) -> nat {
    (c as u32 - '0' as u32) as nat
}

/// The decimal digit of a value below ten.
pub open spec fn digit_char(d: nat) -> char {
    ((d + 48) as u8) as char
}

/// Whether every character of a text is a decimal digit.
pub open spec fn all_digits(text: Seq<char>) -> bool {
    forall|i: int| 0 <= i < text.len() ==> is_digit(#[trigger] text[i])
}

/// The number that a sequence of decimal digits writes; leading zeros count
/// for nothing.
pub open spec fn digits_value(text: Seq<char>) -> nat
    decreases text.len(),
{
    if text.len() == 0 {
        0
    } else {
        digits_value(text.drop_last()) * 10 + digit_of(text.last())
    }
}

/// The decimal notation of a number, without leading zeros.
pub open spec fn decimal_text(n: nat) -> Seq<char>
    decreases n,
{
    if n < 10 {
        seq![digit_char(n)]
    } else {
        decimal_text(n / 10).push(digit_char(n % 10))
    }
}

/// The decimal notation of a number is made of digits and reads back as
/// the number. Only zero is written as "0".
pub proof fn lemma_decimal_round_trip(n: nat)
    ensures
        all_digits(decimal_text(n)),
        decimal_text(n).len() >= 1,
        digits_value(decimal_text(n)) == n,
        decimal_text(n) == seq!['0'] <==> n == 0,
        n > 0 ==> decimal_text(n)[0] != '0',
    decreases n,
{
    let text = decimal_text(n);
    if n < 10 {
        assert(text.drop_last() =~= Seq::<char>::empty());
        assert(digits_value(text.drop_last()) == 0);
        assert(digit_of(digit_char(n)) == n);
        assert(text[0] == digit_char(n));
        assert(text.last() == digit_char(n));
        assert(digits_value(text) == digits_value(text.drop_last()) * 10 + digit_of(text.last()));
        if n == 0 {
            assert(text =~= seq!['0']);
        }
    } else {
        lemma_decimal_round_trip(n / 10);
        let head = decimal_text(n / 10);
        assert(text.drop_last() =~= head);
        assert(text.last() == digit_char(n % 10));
        assert(digit_of(digit_char(n % 10)) == n % 10);
        assert(digits_value(text) == digits_value(text.drop_last()) * 10 + digit_of(text.last()));
        assert(text.len() >= 2);
        assert(text[0] == head[0]);
    }
}

/// A number written with more digits in front is no smaller.
pub proof fn lemma_digits_prefix(text: Seq<char>, k: int)
    requires
        0 <= k <= text.len(),
    ensures
        digits_value(text.take(k)) <= digits_value(text),
    decreases text.len() - k,
{
    if k < text.len() {
        lemma_digits_prefix(text, k + 1);
        assert(text.take(k + 1).drop_last() =~= text.take(k));
    } else {
        assert(text.take(k) =~= text);
    }
}

/// Whether every character is a decimal digit.
pub fn only_digits(chars: &Vec<char>) -> (r: bool)
    ensures
        r == all_digits(chars@),
{
    let mut i: usize = 0;
    while i < chars.len()
        invariant
            i <= chars.len(),
            forall|j: int| 0 <= j < i ==> is_digit(#[trigger] chars[j]),
        decreases chars.len() - i,
    {
        let c = chars[i];
        if !('0' <= c && c <= '9') {
            return false;
        }
        i = i + 1;
    }
    true
}

/// Reads a whole number from its decimal digits: none for no digits at all
/// and for a number beyond `u64`.
pub fn decimal_value(chars: &Vec<char>) -> (r: Option<u64>)
    requires
        all_digits(chars@),
    ensures
        r == (if chars.len() > 0 && digits_value(chars@) <= u64::MAX {
            Some(digits_value(chars@) as u64)
        } else {
            None
        }),
{
    if chars.len() == 0 {
        return None;
    }
    let mut value: u64 = 0;
    let mut i: usize = 0;
    assert(chars@.take(0) =~= Seq::<char>::empty());
    while i < chars.len()
        invariant
            i <= chars.len(),
            all_digits(chars@),
            value == digits_value(chars@.take(i as int)),
        decreases chars.len() - i,
    {
        let c = chars[i];
        let digit: u64 = (c as u32 - '0' as u32) as u64;
        proof {
            assert(chars@.take(i + 1).drop_last() =~= chars@.take(i as int));
            assert(chars@.take(i + 1).last() == c);
            lemma_digits_prefix(chars@, i + 1);
        }
        if value > (u64::MAX - digit) / 10 {
            return None;
        }
        value = value * 10 + digit;
        i = i + 1;
    }
    assert(chars@.take(chars.len() as int) =~= chars@);
    Some(value)
}

/// The whole number that a text writes: decimal digits, with or without a
/// plus sign in front.
pub open spec fn whole_number(text: Seq<char>) -> Option<u64> {
    let digits = if text.len() > 0 && text[0] == '+' {
        text.drop_first()
    } else {
        text
    };
    if digits.len() > 0 && all_digits(digits) && digits_value(digits) <= u64::MAX {
        Some(digits_value(digits) as u64)
    } else {
        None
    }
}

/// Reads a whole number from a text.
pub fn parse_u64(text: &str) -> (r: Option<u64>)
    ensures
        r == whole_number(text@),
{
    let mut chars = chars_of(text);
    if chars.len() > 0 && chars[0] == '+' {
        let ghost before = chars@;
        chars.remove(0);
        assert(chars@ =~= before.drop_first());
    }
    if only_digits(&chars) {
        decimal_value(&chars)
    } else {
        None
    }
}

/// Appends the decimal notation of a number to a text.
pub fn push_decimal(text: &mut String, n: u64)
    ensures
        final(text)@ == old(text)@ + decimal_text(n as nat),
    decreases n,
{
    if n >= 10 {
        push_decimal(text, n / 10);
    }
    let digit: u8 = (n % 10) as u8;
    push_char(text, (digit + 48) as char);
    proof {
        if n >= 10 {
            assert(final(text)@ =~= old(text)@ + decimal_text(n as nat));
        } else {
            assert(final(text)@ =~= old(text)@ + decimal_text(n as nat));
        }
    }
}

/// The decimal notation of a number.
pub fn decimal_string(n: u64) -> (text: String)
    ensures
        text@ == decimal_text(n as nat),
{
    let mut text = String::new();
    push_decimal(&mut text, n);
    assert(Seq::<char>::empty() + decimal_text(n as nat) =~= decimal_text(n as nat));
    text
}

/// The last `width` decimal digits of a number, zeros in front where it has fewer.
pub open spec fn padded_text(f: nat, width: nat) -> Seq<char>
    decreases width,
{
    if width == 0 {
        Seq::empty()
    } else {
        padded_text(f / 10, (width - 1) as nat).push(digit_char(f % 10))
    }
}

/// The digits behind a decimal point for `f` parts in ten to the power
/// `width`: zeros at the end are left out, but one digit always stands.
pub open spec fn fraction_text(f: nat, width: nat) -> Seq<char>
    decreases width,
{
    if width <= 1 {
        seq![digit_char(f % 10)]
    } else if f % 10 == 0 {
        fraction_text(f / 10, (width - 1) as nat)
    } else {
        padded_text(f, width)
    }
}

/// Appends the last `width` decimal digits of a number.
pub fn push_padded(text: &mut String, f: u32, width: u8)
    ensures
        final(text)@ == old(text)@ + padded_text(f as nat, width as nat),
    decreases width,
{
    if width == 0 {
        assert(final(text)@ =~= old(text)@ + padded_text(f as nat, width as nat));
    } else {
        push_padded(text, f / 10, width - 1);
        let digit: u8 = (f % 10) as u8;
        push_char(text, (digit + 48) as char);
        assert(final(text)@ =~= old(text)@ + padded_text(f as nat, width as nat));
    }
}

/// Appends the digits behind a decimal point.
pub fn push_fraction(text: &mut String, f: u32, width: u8)
    ensures
        final(text)@ == old(text)@ + fraction_text(f as nat, width as nat),
    decreases width,
{
    if width <= 1 {
        let digit: u8 = (f % 10) as u8;
        push_char(text, (digit + 48) as char);
        assert(final(text)@ =~= old(text)@ + fraction_text(f as nat, width as nat));
    } else if f % 10 == 0 {
        push_fraction(text, f / 10, width - 1);
    } else {
        push_padded(text, f, width);
    }
}

} // verus!
