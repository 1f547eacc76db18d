//! The grammar of assembly text, as functions on bytes.
//!
//! Every function takes the whole text and a position in it, and gives what
//! stands at that position together with the position that follows it.
//! Alternatives are tried in order and the first that matches is taken;
//! repetitions take as much as they can and are never undone.

use vstd::prelude::*;
use crate::text::ascii_text;

verus! {

/// What stands for an operand in contracts: the strings by their characters.
pub enum OperandView {
    Register(u8),
    Immediate(i32),
    Name(Seq<char>),
}

/// What stands for a statement in contracts: the strings by their characters.
pub enum AsmObjectView {
    Instruction(Seq<char>, Seq<OperandView>),
    Label(Seq<char>),
    Constant(Seq<char>, Seq<char>),
}

/// The horizontal tab.
pub const TAB: u8 = 0x09;

/// The line feed.
pub const LINE_FEED: u8 = 0x0a;

/// The carriage return.
pub const CARRIAGE_RETURN: u8 = 0x0d;

/// The space.
pub const SPACE: u8 = 0x20;

/// `#`, which begins a comment.
pub const HASH: u8 = 0x23;

/// `+`
pub const PLUS: u8 = 0x2b;

/// `,`, which parts operands.
pub const COMMA: u8 = 0x2c;

/// `-`
pub const MINUS: u8 = 0x2d;

/// `0`
pub const ZERO: u8 = 0x30;

/// `:`, which ends a label.
pub const COLON: u8 = 0x3a;

/// `=`, which parts the name of a constant from its value.
pub const EQUALS: u8 = 0x3d;

/// `_`
pub const UNDERSCORE: u8 = 0x5f;

/// `r`, which begins a register.
pub const LOWER_R: u8 = 0x72;

/// `x`, the second byte of a hexadecimal literal.
pub const LOWER_X: u8 = 0x78;

/// The sets of bytes that the grammar takes in runs.
#[derive(Debug, Clone, Copy, PartialEq, Eq, Structural)]
pub enum Class {
    /// Spaces and tabs.
    Blank,
    /// `0` to `9`.
    Digit,
    /// `0` to `9`, `a` to `f` and `A` to `F`.
    HexDigit,
    /// ASCII letters and digits.
    Alphanumeric,
    /// ASCII letters, digits and the underscore.
    NameChar,
    /// Every byte but line feed and carriage return.
    CommentText,
}

/// Whether `b` is an ASCII letter.
pub open spec fn is_alpha(b: u8) -> bool {
    (0x41 <= b <= 0x5a) || (0x61 <= b <= 0x7a)
}

/// Whether `b` is a decimal digit.
pub open spec fn is_digit(b: u8) -> bool {
    0x30 <= b <= 0x39
}

/// Whether `b` is a hexadecimal digit, in either case.
pub open spec fn is_hex_digit(b: u8) -> bool {
    is_digit(b) || (0x41 <= b <= 0x46) || (0x61 <= b <= 0x66)
}

/// Whether a name may begin with `b`: an ASCII letter or the underscore.
pub open spec fn is_name_start(b: u8) -> bool {
    is_alpha(b) || b == UNDERSCORE
}

/// Whether `b` belongs to the class.
pub open spec fn member(class: Class, b: u8) -> bool {
    match class {
        Class::Blank => b == SPACE || b == TAB,
        Class::Digit => is_digit(b),
        Class::HexDigit => is_hex_digit(b),
        Class::Alphanumeric => is_alpha(b) || is_digit(b),
        Class::NameChar => is_alpha(b) || is_digit(b) || b == UNDERSCORE,
        Class::CommentText => b != LINE_FEED && b != CARRIAGE_RETURN,
    }
}

/// Whether the byte `b` stands at position `i`.
pub open spec fn has(s: Seq<u8>, i: int, b: u8) -> bool {
    0 <= i < s.len() && s[i] == b
}

/// The end of the longest run of bytes of the class that begins at `i`.
pub open spec fn run_end(s: Seq<u8>, i: int, class: Class) -> int
    decreases s.len() - i,
{
    if 0 <= i < s.len() && member(class, s[i]) {
        run_end(s, i + 1, class)
    } else {
        i
    }
}

/// The value of a digit: `0` to `9`, then `a` to `f` in either case for ten
/// to fifteen.
pub open spec fn digit_value(b: u8) -> nat {
    if is_digit(b) {
        (b - 0x30) as nat
    } else if 0x61 <= b <= 0x66 {
        (b - 0x61 + 10) as nat
    } else {
        (b - 0x41 + 10) as nat
    }
}

/// The number that the digits stand for in the given radix, the most
/// significant digit first.
pub open spec fn numeral_value(digits: Seq<u8>, radix: nat) -> nat
    decreases digits.len(),
{
    if digits.len() == 0 {
        0
    } else {
        numeral_value(digits.drop_last(), radix) * radix + digit_value(digits.last())
    }
}

/// A register: `r` and one or more decimal digits whose number fits in a byte.
pub open spec fn register(s: Seq<u8>, i: int) -> Option<(u8, int)> {
    let end = run_end(s, i + 1, Class::Digit);
    let index = numeral_value(s.subrange(i + 1, end), 10);
    if has(s, i, LOWER_R) && end > i + 1 && index <= u8::MAX {
        Some((index as u8, end))
    } else {
        None
    }
}

/// A hexadecimal literal: `0x` and one or more hexadecimal digits whose
/// number fits in a signed 32-bit integer.
pub open spec fn hex_literal(s: Seq<u8>, i: int) -> Option<(i32, int)> {
    let end = run_end(s, i + 2, Class::HexDigit);
    let value = numeral_value(s.subrange(i + 2, end), 16);
    if has(s, i, ZERO) && has(s, i + 1, LOWER_X) && end > i + 2 && value <= i32::MAX {
        Some((value as i32, end))
    } else {
        None
    }
}

/// A decimal literal at the start of `t`: an optional `+` or `-`, then one or
/// more decimal digits, the whole a number that fits in a signed 32-bit
/// integer. The result is the number and how many bytes it takes.
pub open spec fn decimal_literal(t: Seq<u8>) -> Option<(i32, int)> {
    let negative = has(t, 0, MINUS);
    let start: int = if negative || has(t, 0, PLUS) {
        1
    } else {
        0
    };
    let end = run_end(t, start, Class::Digit);
    let magnitude = numeral_value(t.subrange(start, end), 10) as int;
    let value = if negative {
        -magnitude
    } else {
        magnitude
    };
    if end > start && i32::MIN <= value <= i32::MAX {
        Some((value as i32, end))
    } else {
        None
    }
}

/// An immediate: a hexadecimal literal, or else a decimal literal.
pub open spec fn immediate(s: Seq<u8>, i: int) -> Option<(i32, int)> {
    match hex_literal(s, i) {
        Some(found) => Some(found),
        None => match decimal_literal(s.skip(i)) {
            Some((value, taken)) => Some((value, i + taken)),
            None => None,
        },
    }
}

/// The end of the name that begins at `i`: a letter or an underscore, then
/// letters, digits and underscores.
pub open spec fn name_end(s: Seq<u8>, i: int) -> Option<int> {
    if 0 <= i < s.len() && is_name_start(s[i]) {
        Some(run_end(s, i + 1, Class::NameChar))
    } else {
        None
    }
}

/// An operand: a register, or else an immediate, or else a name.
pub open spec fn operand(s: Seq<u8>, i: int) -> Option<(OperandView, int)> {
    match register(s, i) {
        Some((index, end)) => Some((OperandView::Register(index), end)),
        None => match immediate(s, i) {
            Some((value, end)) => Some((OperandView::Immediate(value), end)),
            None => match name_end(s, i) {
                Some(end) => Some((OperandView::Name(ascii_text(s.subrange(i, end))), end)),
                None => None,
            },
        },
    }
}

/// The operands that follow the one ending at `i`, each after a comma that
/// blanks may surround, and the position after the last of them. A comma that
/// no operand follows is not taken. (An operand always ends after the place
/// where it begins and within the text: the test on its end only shows that
/// the definition is well founded.)
pub open spec fn more_operands(s: Seq<u8>, i: int) -> (Seq<OperandView>, int)
    decreases s.len() - i,
{
    let comma = run_end(s, i, Class::Blank);
    if i >= 0 && has(s, comma, COMMA) {
        match operand(s, run_end(s, comma + 1, Class::Blank)) {
            Some((found, end)) => if i < end <= s.len() {
                let (others, last) = more_operands(s, end);
                (seq![found] + others, last)
            } else {
                (Seq::empty(), i)
            },
            None => (Seq::empty(), i),
        }
    } else {
        (Seq::empty(), i)
    }
}

/// A list of operands separated by commas, possibly empty.
pub open spec fn operand_list(s: Seq<u8>, i: int) -> (Seq<OperandView>, int) {
    match operand(s, i) {
        Some((first, end)) => {
            let (others, last) = more_operands(s, end);
            (seq![first] + others, last)
        },
        None => (Seq::empty(), i),
    }
}

/// The end of the comment that begins at `i`: `#` and every byte up to the
/// next line feed or carriage return.
pub open spec fn comment(s: Seq<u8>, i: int) -> Option<int> {
    if has(s, i, HASH) {
        Some(run_end(s, i + 1, Class::CommentText))
    } else {
        None
    }
}

/// The end of the line that `i` stands in: blanks, then a comment if there is
/// one, then a line feed, a carriage return with a line feed, or the end of
/// the text. A carriage return alone ends no line.
pub open spec fn line_end(s: Seq<u8>, i: int) -> Option<int> {
    let blank = run_end(s, i, Class::Blank);
    let stop = match comment(s, blank) {
        Some(end) => end,
        None => blank,
    };
    if has(s, stop, LINE_FEED) {
        Some(stop + 1)
    } else if has(s, stop, CARRIAGE_RETURN) && has(s, stop + 1, LINE_FEED) {
        Some(stop + 2)
    } else if stop == s.len() {
        Some(stop)
    } else {
        None
    }
}

/// The position after the blanks, line breaks and comments that begin at `i`.
pub open spec fn trivia_end(s: Seq<u8>, i: int) -> int
    decreases s.len() - i,
{
    let blank = run_end(s, i, Class::Blank);
    match line_end(s, i) {
        Some(next) => if 0 <= i <= blank < next {
            trivia_end(s, next)
        } else {
            blank
        },
        None => blank,
    }
}

/// A constant definition: a name, `=`, a value of letters and digits, and
/// the end of the line. Blanks may surround the `=`.
pub open spec fn constant(s: Seq<u8>, i: int) -> Option<(AsmObjectView, int)> {
    match name_end(s, i) {
        Some(end) => {
            let equals = run_end(s, end, Class::Blank);
            let start = run_end(s, equals + 1, Class::Blank);
            let stop = run_end(s, start, Class::Alphanumeric);
            if has(s, equals, EQUALS) && stop > start {
                match line_end(s, stop) {
                    Some(next) => Some(
                        (
                            AsmObjectView::Constant(
                                ascii_text(s.subrange(i, end)),
                                ascii_text(s.subrange(start, stop)),
                            ),
                            next,
                        ),
                    ),
                    None => None,
                }
            } else {
                None
            }
        },
        None => None,
    }
}

/// A label: a name with `:` directly after it.
pub open spec fn label(s: Seq<u8>, i: int) -> Option<(AsmObjectView, int)> {
    match name_end(s, i) {
        Some(end) => if has(s, end, COLON) {
            Some((AsmObjectView::Label(ascii_text(s.subrange(i, end))), end + 1))
        } else {
            None
        },
        None => None,
    }
}

/// An instruction: a name, blanks, a list of operands, and the rest of the
/// line if nothing but blanks and a comment is left of it.
pub open spec fn instruction(s: Seq<u8>, i: int) -> Option<(AsmObjectView, int)> {
    match name_end(s, i) {
        Some(end) => {
            let (operands, last) = operand_list(s, run_end(s, end, Class::Blank));
            let next = match line_end(s, last) {
                Some(next) => next,
                None => last,
            };
            Some((AsmObjectView::Instruction(ascii_text(s.subrange(i, end)), operands), next))
        },
        None => None,
    }
}

/// A statement: a constant definition, or else a label, or else an
/// instruction.
pub open spec fn statement(s: Seq<u8>, i: int) -> Option<(AsmObjectView, int)> {
    match constant(s, i) {
        Some(found) => Some(found),
        None => match label(s, i) {
            Some(found) => Some(found),
            None => instruction(s, i),
        },
    }
}

/// The statements from `i` on, with blanks, line breaks and comments between
/// them, and the position at which no further statement begins. (A statement
/// always ends after the place where it begins and within the text: the test
/// on its end only shows that the definition is well founded.)
pub open spec fn statements(s: Seq<u8>, i: int) -> (Seq<AsmObjectView>, int)
    decreases s.len() - i,
{
    let start = trivia_end(s, i);
    match statement(s, start) {
        Some((found, end)) => if 0 <= i < end <= s.len() {
            let (others, stop) = statements(s, end);
            (seq![found] + others, stop)
        } else {
            (Seq::empty(), start)
        },
        None => (Seq::empty(), start),
    }
}

/// The statements of a whole text, or the position of what is left when the
/// text does not end where the statements do.
pub open spec fn program(s: Seq<u8>) -> Result<Seq<AsmObjectView>, int> {
    let (found, stop) = statements(s, 0);
    if stop == s.len() {
        Ok(found)
    } else {
        Err(stop)
    }
}

/// Every byte of a run belongs to the class of the run, and the run ends
/// within the text.
pub proof fn lemma_run(s: Seq<u8>, i: int, class: Class)
    requires
        0 <= i <= s.len(),
    ensures
        i <= run_end(s, i, class) <= s.len(),
        forall|k: int| i <= k < run_end(s, i, class) ==> member(class, #[trigger] s[k]),
        run_end(s, i, class) < s.len() ==> !member(class, s[run_end(s, i, class)]),
    decreases s.len() - i,
{
    if i < s.len() && member(class, s[i]) {
        lemma_run(s, i + 1, class);
    }
}

/// A numeral is worth at least as much as any of its beginnings.
pub proof fn lemma_numeral_grows(digits: Seq<u8>, n: int, radix: nat)
    requires
        0 <= n <= digits.len(),
        radix >= 1,
    ensures
        numeral_value(digits.take(n), radix) <= numeral_value(digits, radix),
    decreases digits.len(),
{
    if n == digits.len() {
        assert(digits.take(n) == digits);
    } else {
        let shorter = digits.drop_last();
        lemma_numeral_grows(shorter, n, radix);
        assert(shorter.take(n) == digits.take(n));
        assert(numeral_value(shorter, radix) * radix >= numeral_value(shorter, radix))
            by (nonlinear_arith)
            requires
                radix >= 1,
        ;
    }
}

/// An operand is not empty and ends within the text.
pub proof fn lemma_operand_bounds(s: Seq<u8>, i: int)
    requires
        0 <= i <= s.len(),
    ensures
        operand(s, i) matches Some((_, end)) ==> i < end <= s.len(),
{
    if i < s.len() {
        lemma_run(s, i + 1, Class::Digit);
        lemma_run(s, i + 1, Class::NameChar);
        if i + 2 <= s.len() {
            lemma_run(s, i + 2, Class::HexDigit);
        }
        let t = s.skip(i);
        let start: int = if has(t, 0, MINUS) || has(t, 0, PLUS) {
            1
        } else {
            0
        };
        lemma_run(t, start, Class::Digit);
    }
}

/// The end of a line lies at or after the place it is sought from, within
/// the text.
pub proof fn lemma_line_end_bounds(s: Seq<u8>, i: int)
    requires
        0 <= i <= s.len(),
    ensures
        line_end(s, i) matches Some(next) ==> i <= next <= s.len(),
{
    lemma_run(s, i, Class::Blank);
    let blank = run_end(s, i, Class::Blank);
    if has(s, blank, HASH) {
        lemma_run(s, blank + 1, Class::CommentText);
    }
}

/// The operands after a comma end at or after the place they are sought
/// from, within the text.
pub proof fn lemma_more_operands_bounds(s: Seq<u8>, i: int)
    requires
        0 <= i <= s.len(),
    ensures
        i <= more_operands(s, i).1 <= s.len(),
    decreases s.len() - i,
{
    lemma_run(s, i, Class::Blank);
    let comma = run_end(s, i, Class::Blank);
    if has(s, comma, COMMA) {
        lemma_run(s, comma + 1, Class::Blank);
        let start = run_end(s, comma + 1, Class::Blank);
        lemma_operand_bounds(s, start);
        match operand(s, start) {
            Some((_, end)) => {
                lemma_more_operands_bounds(s, end);
            },
            None => {},
        }
    }
}

/// A statement is not empty and ends within the text.
pub proof fn lemma_statement_bounds(s: Seq<u8>, i: int)
    requires
        0 <= i <= s.len(),
    ensures
        statement(s, i) matches Some((_, end)) ==> i < end <= s.len(),
{
    if i < s.len() {
        lemma_run(s, i + 1, Class::NameChar);
        let end = run_end(s, i + 1, Class::NameChar);
        lemma_run(s, end, Class::Blank);
        let blank = run_end(s, end, Class::Blank);
        // A constant definition.
        if blank < s.len() {
            lemma_run(s, blank + 1, Class::Blank);
            let start = run_end(s, blank + 1, Class::Blank);
            lemma_run(s, start, Class::Alphanumeric);
            lemma_line_end_bounds(s, run_end(s, start, Class::Alphanumeric));
        }
        // An instruction.
        lemma_operand_bounds(s, blank);
        match operand(s, blank) {
            Some((_, after)) => {
                lemma_more_operands_bounds(s, after);
            },
            None => {},
        }
        lemma_line_end_bounds(s, operand_list(s, blank).1);
    }
}

} // verus!
