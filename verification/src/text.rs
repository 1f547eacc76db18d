//! Rendering of numbers and byte ranges as text.

use vstd::prelude::*;

verus! {

/// Assumed of `String::push`, not proved: it appends the character to the end
/// of the string and changes nothing else of it.
pub assume_specification[ String::push ](s: &mut String, c: char)
    ensures
        final(s)@ == old(s)@.push(c),
;

/// Assumed of `str::eq`, not proved: two strings are equal exactly when they
/// hold the same characters in the same order.
pub assume_specification[ <str as PartialEq>::eq ](a: &str, b: &str) -> (equal: bool)
    ensures
        equal == (a@ == b@),
;

/// The character of a single digit below sixteen, lower case from ten on.
pub open spec fn digit_char(d: nat) -> char {
    if d < 10 {
        ((48 + d) as u8) as char
    } else {
        ((87 + d) as u8) as char
    }
}

/// The decimal numeral of `n`, without leading zeros.
pub open spec fn decimal(n: nat) -> Seq<char>
    decreases n,
{
    if n < 10 {
        seq![digit_char(n)]
    } else {
        decimal(n / 10).push(digit_char(n % 10))
    }
}

/// The decimal numeral of `v`, with a leading minus sign when it is negative.
pub open spec fn signed_decimal(v: int) -> Seq<char> {
    if v < 0 {
        seq!['-'] + decimal((-v) as nat)
    } else {
        decimal(v as nat)
    }
}

/// The four lower-case hexadecimal digits of `n`, most significant first.
pub open spec fn hex4(n: u16) -> Seq<char> {
    seq![
        digit_char((n as nat / 4096) % 16),
        digit_char((n as nat / 256) % 16),
        digit_char((n as nat / 16) % 16),
        digit_char(n as nat % 16),
    ]
}

/// The characters that stand for a range of ASCII bytes.
pub open spec fn ascii_text(bytes: Seq<u8>) -> Seq<char> {
    Seq::new(bytes.len(), |i: int| bytes[i] as char)
}

/// Returns the character of a digit below sixteen.
pub fn digit(d: u8) -> (c: char)
    requires
        d < 16,
    ensures
        c == digit_char(d as nat),
{
    if d < 10 {
        (48u8 + d) as char
    } else {
        (87u8 + d) as char
    }
}

/// Appends the decimal numeral of `n` to `s`.
pub fn push_decimal(s: &mut String, n: u64)
    ensures
        final(s)@ == old(s)@ + decimal(n as nat),
    decreases n,
{
    if n >= 10 {
        push_decimal(s, n / 10);
    }
    s.push(digit((n % 10) as u8));
}

/// Appends the decimal numeral of `v`, with its sign, to `s`.
pub fn push_signed_decimal(s: &mut String, v: i32)
    ensures
        final(s)@ == old(s)@ + signed_decimal(v as int),
{
    if v < 0 {
        s.push('-');
        push_decimal(s, (-(v as i64)) as u64);
    } else {
        push_decimal(s, v as u64);
    }
}

/// Appends the four hexadecimal digits of `n` to `s`.
pub fn push_hex4(s: &mut String, n: u16)
    ensures
        final(s)@ == old(s)@ + hex4(n),
{
    s.push(digit(((n / 4096) % 16) as u8));
    s.push(digit(((n / 256) % 16) as u8));
    s.push(digit(((n / 16) % 16) as u8));
    s.push(digit((n % 16) as u8));
}

/// Returns the text of the ASCII bytes `bytes[from..to]`.
pub fn ascii_string(bytes: &[u8], from: usize, to: usize) -> (s: String)
    requires
        from <= to <= bytes.len(),
    ensures
        s@ == ascii_text(bytes@.subrange(from as int, to as int)),
{
    let mut s = String::new();
    let mut i: usize = from;
    while i < to
        invariant
            from <= i <= to <= bytes.len(),
            s@ == ascii_text(bytes@.subrange(from as int, i as int)),
        decreases to - i,
    {
        s.push(bytes[i] as char);
        i = i + 1;
    }
    s
}

} // verus!
