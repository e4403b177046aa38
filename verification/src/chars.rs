//! Characters: the classes that the lexer decides by, and texts as
//! sequences of characters.

use vstd::prelude::*;
use vstd::std_specs::iter::IteratorSpec;
use vstd::string::*;

verus! {

/// Whether `char::is_alphanumeric` holds of the character.
pub uninterp spec fn unicode_alphanumeric(c: char) -> bool;

/// Whether `char::is_whitespace` holds of the character.
pub uninterp spec fn unicode_whitespace(c: char) -> bool;

/// `char::is_alphanumeric` decides by the Unicode tables that the standard
/// library carries; its answer is a fixed property of the character.
pub assume_specification[ char::is_alphanumeric ](c: char) -> (r: bool)
    ensures
        r == unicode_alphanumeric(c),
;

/// `char::is_whitespace` decides by the Unicode tables that the standard
/// library carries; its answer is a fixed property of the character.
pub assume_specification[ char::is_whitespace ](c: char) -> (r: bool)
    ensures
        r == unicode_whitespace(c),
;

/// `String::push` appends one character to the end of the string.
pub assume_specification[ String::push ](s: &mut String, c: char)
    ensures
        final(s)@ == old(s)@.push(c),
;

/// Whether the character is one of `0` to `9`.
pub open spec fn ascii_digit(c: char) -> bool {
    '0' <= c && c <= '9'
}

/// Whether the character is an ASCII letter of either case.
pub open spec fn ascii_letter(c: char) -> bool {
    ('a' <= c && c <= 'z') || ('A' <= c && c <= 'Z')
}

/// Whether the character is an ASCII letter or digit.
pub open spec fn ascii_alphanumeric(c: char) -> bool {
    ascii_digit(c) || ascii_letter(c)
}

/// Whether the character is one of the first 128, the ASCII characters.
pub open spec fn ascii(c: char) -> bool {
    c <= '\u{7f}'
}

/// Whether the character is a letter or a digit. Among the ASCII characters
/// these are `0` to `9`, `a` to `z` and `A` to `Z`; of any other character
/// the Unicode tables decide.
pub open spec fn alphanumeric(c: char) -> bool {
    if ascii(c) {
        ascii_alphanumeric(c)
    } else {
        unicode_alphanumeric(c)
    }
}

/// Whether the character is white space. Among the ASCII characters these
/// are the space and the five from the tab to the carriage return; of any
/// other character the Unicode tables decide.
pub open spec fn whitespace(c: char) -> bool {
    if ascii(c) {
        c == ' ' || ('\t' <= c && c <= '\r')
    } else {
        unicode_whitespace(c)
    }
}

/// Whether the character is one of `0` to `9`.
pub fn is_ascii_digit(c: char) -> (r: bool)
    ensures
        r == ascii_digit(c),
{
    '0' <= c && c <= '9'
}

/// Whether the character is an ASCII letter of either case.
pub fn is_ascii_letter(c: char) -> (r: bool)
    ensures
        r == ascii_letter(c),
{
    ('a' <= c && c <= 'z') || ('A' <= c && c <= 'Z')
}

/// Whether the character is an ASCII letter or digit.
pub fn is_ascii_alphanumeric(c: char) -> (r: bool)
    ensures
        r == ascii_alphanumeric(c),
{
    is_ascii_digit(c) || is_ascii_letter(c)
}

/// Whether the character is a letter or a digit.
pub fn is_letter_or_digit(c: char) -> (r: bool)
    ensures
        r == alphanumeric(c),
{
    if c <= '\u{7f}' {
        is_ascii_alphanumeric(c)
    } else {
        c.is_alphanumeric()
    }
}

/// Whether the character is white space.
pub fn is_blank(c: char) -> (r: bool)
    ensures
        r == whitespace(c),
{
    if c <= '\u{7f}' {
        c == ' ' || ('\t' <= c && c <= '\r')
    } else {
        c.is_whitespace()
    }
}

/// The characters of a text, in order.
pub fn chars_of(text: &str) -> (chars: Vec<char>)
    ensures
        chars@ == text@,
{
    broadcast use {vstd::string::axiom_spec_iter, vstd::string::next_postcondition};

    let mut chars: Vec<char> = Vec::new();
    let mut rest = text.chars();
    assert(chars@ + rest.remaining() =~= text@);
    loop
        invariant
            chars@ + rest.remaining() == text@,
            rest.decrease() is Some,
        ensures
            chars@ == text@,
        decreases rest.decrease()->0,
    {
        match rest.next() {
            Some(c) => {
                chars.push(c);
                assert(chars@ + rest.remaining() =~= text@);
            },
            None => {
                assert(chars@ =~= text@);
                break ;
            },
        }
    }
    chars
}

/// Whether two texts hold the same characters.
pub fn same_text(a: &str, b: &str) -> (r: bool)
    ensures
        r == (a@ == b@),
{
    let x = chars_of(a);
    let y = chars_of(b);
    let n = x.len();
    if n != y.len() {
        return false;
    }
    let mut i: usize = 0;
    while i < n
        invariant
            i <= n,
            x@ == a@,
            y@ == b@,
            n == x@.len(),
            n == y@.len(),
            forall|k: int| 0 <= k < i ==> x@[k] == y@[k],
        decreases n - i,
    {
        if x[i] != y[i] {
            return false;
        }
        i += 1;
    }
    assert(x@ =~= y@);
    true
}

} // verus!
