//! Numbers, bytes and strings as text, for the text form of tables,
//! headers and errors.
//!
//! The one wrapper in this file, `push_char`, is not proved: its contract
//! restates what the standard library documents for `String::push`.

use vstd::prelude::*;
use vstd::string::StrSliceExecFns;

verus! {

/// The decimal digit for a value below 10.
pub open spec fn decimal_digit(value: nat) -> char {
    ('0' as u8 + value) as char
}

/// The decimal digits of a number, without leading zeros.
pub open spec fn decimal_of(n: nat) -> Seq<char>
    decreases n,
{
    if n < 10 {
        seq![decimal_digit(n)]
    } else {
        decimal_of(n / 10).push(decimal_digit(n % 10))
    }
}

/// The lower-case hexadecimal digit for a value below 16.
pub open spec fn hex_char(value: u8) -> char {
    if value < 10 {
        ('0' as u8 + value) as char
    } else {
        ('a' as u8 + value - 10) as char
    }
}

/// A control character: one below the space, or the delete character.
pub open spec fn is_control(c: char) -> bool {
    (c as u32) < 0x20 || c as u32 == 0x7f
}

/// A character as it stands between quotes. The quote and the backslash
/// get a backslash in front; tab, carriage return and line feed are written
/// `\t`, `\r` and `\n`; any other control character is written `\u{..}`
/// with its code in hexadecimal; every other character stands for itself.
pub open spec fn escaped_char(c: char) -> Seq<char> {
    if c == '"' {
        seq!['\\', '"']
    } else if c == '\\' {
        seq!['\\', '\\']
    } else if c == '\t' {
        seq!['\\', 't']
    } else if c == '\r' {
        seq!['\\', 'r']
    } else if c == '\n' {
        seq!['\\', 'n']
    } else if is_control(c) {
        if (c as u32) < 16 {
            seq!['\\', 'u', '{', hex_char(c as u8), '}']
        } else {
            seq!['\\', 'u', '{', hex_char((c as u8 / 16) as u8), hex_char((c as u8 % 16) as u8), '}']
        }
    } else {
        seq![c]
    }
}

/// The characters of a text as they stand between quotes.
pub open spec fn escaped(text: Seq<char>) -> Seq<char>
    decreases text.len(),
{
    if text.len() == 0 {
        Seq::empty()
    } else {
        escaped(text.drop_last()) + escaped_char(text.last())
    }
}

/// A text in double quotes.
pub open spec fn quoted(text: Seq<char>) -> Seq<char> {
    seq!['"'] + escaped(text) + seq!['"']
}

/// `String::push`: appends one character.
#[verifier::external_body]
pub(crate) fn push_char(text: &mut String, c: char)
    ensures
        final(text)@ == old(text)@.push(c),
{
    text.push(c)
}

/// Appends the decimal digits of `n`.
pub(crate) fn push_decimal(text: &mut String, n: u64)
    ensures
        final(text)@ == old(text)@ + decimal_of(n as nat),
    decreases n,
{
    if n >= 10 {
        push_decimal(text, n / 10);
    }
    push_char(text, ((48 + n % 10) as u8) as char);
    assert(text@ =~= old(text)@ + decimal_of(n as nat));
}

/// The decimal digits of `n`.
pub fn format_decimal(n: u64) -> (text: String)
    ensures
        text@ == decimal_of(n as nat),
{
    let mut text = String::new();
    push_decimal(&mut text, n);
    assert(text@ =~= decimal_of(n as nat));
    text
}

/// The lower-case hexadecimal digit for a value below 16.
pub(crate) fn hex_digit_char(value: u8) -> (c: char)
    requires
        value < 16,
    ensures
        c == hex_char(value),
{
    if value < 10 {
        (48u8 + value) as char
    } else {
        (97u8 + value - 10) as char
    }
}

/// Appends a character as it stands between quotes.
fn push_escaped(text: &mut String, c: char)
    ensures
        final(text)@ == old(text)@ + escaped_char(c),
{
    let code: u32 = c as u32;
    if c == '"' {
        push_char(text, '\\');
        push_char(text, '"');
    } else if c == '\\' {
        push_char(text, '\\');
        push_char(text, '\\');
    } else if c == '\t' {
        push_char(text, '\\');
        push_char(text, 't');
    } else if c == '\r' {
        push_char(text, '\\');
        push_char(text, 'r');
    } else if c == '\n' {
        push_char(text, '\\');
        push_char(text, 'n');
    } else if code < 0x20 || code == 0x7f {
        let low: u8 = code as u8;
        push_char(text, '\\');
        push_char(text, 'u');
        push_char(text, '{');
        if low >= 16 {
            push_char(text, hex_digit_char(low / 16));
            push_char(text, hex_digit_char(low % 16));
        } else {
            push_char(text, hex_digit_char(low));
        }
        push_char(text, '}');
    } else {
        push_char(text, c);
    }
    assert(text@ =~= old(text)@ + escaped_char(c));
}

/// A text in double quotes, with the characters escaped that could not
/// stand there as they are.
pub fn quote(s: &str) -> (text: String)
    ensures
        text@ == quoted(s@),
{
    let mut text = String::new();
    push_char(&mut text, '"');
    let n = s.unicode_len();
    let mut i: usize = 0;
    assert(s@.take(0) =~= Seq::<char>::empty());
    assert(text@ =~= seq!['"'] + escaped(s@.take(0)));
    while i < n
        invariant
            i <= n,
            n == s@.len(),
            text@ == seq!['"'] + escaped(s@.take(i as int)),
        decreases n - i,
    {
        let c = s.get_char(i);
        let ghost before = text@;
        proof {
            assert(s@.take(i + 1).drop_last() =~= s@.take(i as int));
            assert(s@.take(i + 1).last() == c);
        }
        push_escaped(&mut text, c);
        assert(text@ =~= seq!['"'] + (escaped(s@.take(i as int)) + escaped_char(c)));
        i += 1;
    }
    assert(s@.take(i as int) =~= s@);
    push_char(&mut text, '"');
    text
}

} // verus!
