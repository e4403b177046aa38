//! The lexer: from a line of text to its tokens.

use crate::chars::{
    alphanumeric, ascii_alphanumeric, ascii_digit, ascii_letter, chars_of,
    is_ascii_alphanumeric, is_ascii_digit, is_ascii_letter, is_blank, is_letter_or_digit,
    whitespace,
};
use crate::commands::{is_command_name, is_reserved};
use crate::error::{CalcError, CalcErrorView};
use crate::number::{all_digits, digit_value, digits_value, natural_from_digits, Natural};
use crate::parser::RES_VAR;
use vstd::prelude::*;
use vstd::string::*;

verus! {

#[derive(PartialEq, Eq, Debug)]
pub enum Token {
    Number(Natural),
    BitwiseAnd,
    BitwiseOr,
    BitwiseXor,
    BitshiftRight,
    BitshiftLeft,
    Plus,
    Minus,
    Mult,
    Div,
    Modulo,
    LeftPar,
    RightPar,
    Equals,
    Variable(String),
    Function(String),
    /// The character `$`, which names the result of the last bare expression.
    ResultVariable,
}

/// The mathematical content of a [`Token`].
pub enum TokenView {
    Number(nat),
    BitwiseAnd,
    BitwiseOr,
    BitwiseXor,
    BitshiftRight,
    BitshiftLeft,
    Plus,
    Minus,
    Mult,
    Div,
    Modulo,
    LeftPar,
    RightPar,
    Equals,
    Variable(Seq<char>),
    Function(Seq<char>),
    ResultVariable,
}

impl View for Token {
    type V = TokenView;

    open spec fn view(&self) -> TokenView {
        match self {
            Token::Number(n) => TokenView::Number(n@),
            Token::BitwiseAnd => TokenView::BitwiseAnd,
            Token::BitwiseOr => TokenView::BitwiseOr,
            Token::BitwiseXor => TokenView::BitwiseXor,
            Token::BitshiftRight => TokenView::BitshiftRight,
            Token::BitshiftLeft => TokenView::BitshiftLeft,
            Token::Plus => TokenView::Plus,
            Token::Minus => TokenView::Minus,
            Token::Mult => TokenView::Mult,
            Token::Div => TokenView::Div,
            Token::Modulo => TokenView::Modulo,
            Token::LeftPar => TokenView::LeftPar,
            Token::RightPar => TokenView::RightPar,
            Token::Equals => TokenView::Equals,
            Token::Variable(name) => TokenView::Variable(name@),
            Token::Function(name) => TokenView::Function(name@),
            Token::ResultVariable => TokenView::ResultVariable,
        }
    }
}

impl Clone for Token {
    fn clone(&self) -> (r: Token)
        ensures
            r@ == self@,
    {
        match self {
            Token::Number(n) => Token::Number(n.clone()),
            Token::BitwiseAnd => Token::BitwiseAnd,
            Token::BitwiseOr => Token::BitwiseOr,
            Token::BitwiseXor => Token::BitwiseXor,
            Token::BitshiftRight => Token::BitshiftRight,
            Token::BitshiftLeft => Token::BitshiftLeft,
            Token::Plus => Token::Plus,
            Token::Minus => Token::Minus,
            Token::Mult => Token::Mult,
            Token::Div => Token::Div,
            Token::Modulo => Token::Modulo,
            Token::LeftPar => Token::LeftPar,
            Token::RightPar => Token::RightPar,
            Token::Equals => Token::Equals,
            Token::Variable(name) => Token::Variable(name.clone()),
            Token::Function(name) => Token::Function(name.clone()),
            Token::ResultVariable => Token::ResultVariable,
        }
    }
}

/// The contents of a sequence of tokens.
pub open spec fn tokens_view(tokens: Seq<Token>) -> Seq<TokenView> {
    Seq::new(tokens.len(), |i: int| tokens[i]@)
}

/// The length of the longest run of alphanumeric characters that starts at `from`.
pub open spec fn alphanumeric_run(line: Seq<char>, from: int) -> int
    decreases line.len() - from,
{
    if 0 <= from < line.len() && alphanumeric(line[from]) {
        1 + alphanumeric_run(line, from + 1)
    } else {
        0
    }
}

/// The length of the longest run of the digits `0` to `9` that starts at `from`.
pub open spec fn digit_run(line: Seq<char>, from: int) -> int
    decreases line.len() - from,
{
    if 0 <= from < line.len() && ascii_digit(line[from]) {
        1 + digit_run(line, from + 1)
    } else {
        0
    }
}

/// What stands at one place of a line.
pub enum Scanned {
    /// A token, and the number of characters that it takes.
    Token(TokenView, int),
    /// One character of white space.
    Blank,
    Fail(CalcErrorView),
}

/// What a `0` at `pos` begins: the number zero where no letter or digit
/// follows it; after `0x` or `0b` the longest run of letters and digits, read
/// in base 16 or 2, which must not be empty and must hold digits of that base
/// alone. Anything else is no token.
pub open spec fn scan_zero(line: Seq<char>, pos: int) -> Scanned {
    if pos + 1 >= line.len() || !ascii_alphanumeric(line[pos + 1]) {
        Scanned::Token(TokenView::Number(0), 1)
    } else if line[pos + 1] == 'x' || line[pos + 1] == 'b' {
        let radix: nat = if line[pos + 1] == 'x' {
            16
        } else {
            2
        };
        let n = alphanumeric_run(line, pos + 2);
        let digits = line.subrange(pos + 2, pos + 2 + n);
        if n > 0 && all_digits(digits, radix) {
            Scanned::Token(TokenView::Number(digits_value(digits, radix)), 2 + n)
        } else {
            Scanned::Fail(CalcErrorView::InvalidToken(pos))
        }
    } else {
        Scanned::Fail(CalcErrorView::InvalidToken(pos))
    }
}

/// What stands at `pos`, an index into `line`.
///
/// A decimal number is the longest run of digits. An identifier is a letter
/// and the longest run of letters and digits behind it; the name of a command
/// is refused as one.
pub open spec fn scan_at(line: Seq<char>, pos: int) -> Scanned
    recommends
        0 <= pos < line.len(),
{
    let c = line[pos];
    if c == '+' {
        Scanned::Token(TokenView::Plus, 1)
    } else if c == '-' {
        Scanned::Token(TokenView::Minus, 1)
    } else if c == '*' {
        Scanned::Token(TokenView::Mult, 1)
    } else if c == '/' {
        Scanned::Token(TokenView::Div, 1)
    } else if c == '%' {
        Scanned::Token(TokenView::Modulo, 1)
    } else if c == '(' {
        Scanned::Token(TokenView::LeftPar, 1)
    } else if c == ')' {
        Scanned::Token(TokenView::RightPar, 1)
    } else if c == '=' {
        Scanned::Token(TokenView::Equals, 1)
    } else if c == '&' {
        Scanned::Token(TokenView::BitwiseAnd, 1)
    } else if c == '|' {
        Scanned::Token(TokenView::BitwiseOr, 1)
    } else if c == '^' {
        Scanned::Token(TokenView::BitwiseXor, 1)
    } else if c == '>' {
        if pos + 1 < line.len() && line[pos + 1] == '>' {
            Scanned::Token(TokenView::BitshiftRight, 2)
        } else {
            Scanned::Fail(CalcErrorView::InvalidToken(pos))
        }
    } else if c == '<' {
        if pos + 1 < line.len() && line[pos + 1] == '<' {
            Scanned::Token(TokenView::BitshiftLeft, 2)
        } else {
            Scanned::Fail(CalcErrorView::InvalidToken(pos))
        }
    } else if c == '0' {
        scan_zero(line, pos)
    } else if c == RES_VAR {
        Scanned::Token(TokenView::ResultVariable, 1)
    } else if ascii_digit(c) {
        let n = digit_run(line, pos);
        Scanned::Token(TokenView::Number(digits_value(line.subrange(pos, pos + n), 10)), n)
    } else if ascii_letter(c) {
        let n = 1 + alphanumeric_run(line, pos + 1);
        let name = line.subrange(pos, pos + n);
        if is_reserved(name) {
            Scanned::Fail(CalcErrorView::SpecialVariableInvalidUse(name))
        } else {
            Scanned::Token(TokenView::Variable(name), n)
        }
    } else if whitespace(c) {
        Scanned::Blank
    } else {
        Scanned::Fail(CalcErrorView::InvalidToken(pos))
    }
}

/// A run that starts inside the line ends inside it.
pub proof fn lemma_alphanumeric_run_bounds(line: Seq<char>, from: int)
    requires
        0 <= from <= line.len(),
    ensures
        0 <= alphanumeric_run(line, from) <= line.len() - from,
        forall|i: int|
            from <= i < from + alphanumeric_run(line, from) ==> alphanumeric(#[trigger] line[i]),
    decreases line.len() - from,
{
    if from < line.len() && alphanumeric(line[from]) {
        lemma_alphanumeric_run_bounds(line, from + 1);
    }
}

/// A run that starts inside the line ends inside it, and holds digits alone.
pub proof fn lemma_digit_run_bounds(line: Seq<char>, from: int)
    requires
        0 <= from <= line.len(),
    ensures
        0 <= digit_run(line, from) <= line.len() - from,
        forall|i: int| from <= i < from + digit_run(line, from) ==> ascii_digit(#[trigger] line[i]),
    decreases line.len() - from,
{
    if from < line.len() && ascii_digit(line[from]) {
        lemma_digit_run_bounds(line, from + 1);
    }
}

/// A token takes at least one character and ends inside the line.
pub proof fn lemma_scan_at_taken(line: Seq<char>, pos: int)
    requires
        0 <= pos < line.len(),
    ensures
        match scan_at(line, pos) {
            Scanned::Token(_, taken) => 1 <= taken && pos + taken <= line.len(),
            _ => true,
        },
{
    lemma_alphanumeric_run_bounds(line, pos + 1);
    lemma_digit_run_bounds(line, pos + 1);
    if pos + 2 <= line.len() {
        lemma_alphanumeric_run_bounds(line, pos + 2);
    }
}

/// The tokens of the line from `pos` on, or the first failure.
pub open spec fn scan_from(line: Seq<char>, pos: int) -> Result<Seq<TokenView>, CalcErrorView>
    decreases line.len() - pos,
{
    if !(0 <= pos < line.len()) {
        Ok(Seq::empty())
    } else {
        match scan_at(line, pos) {
            Scanned::Fail(e) => Err(e),
            Scanned::Blank => scan_from(line, pos + 1),
            Scanned::Token(t, taken) => {
                proof {
                    lemma_scan_at_taken(line, pos);
                }
                put_before(seq![t], scan_from(line, pos + taken))
            },
        }
    }
}

/// The outcome `rest`, with `first` put before its tokens where it has any.
pub open spec fn put_before(
    first: Seq<TokenView>,
    rest: Result<Seq<TokenView>, CalcErrorView>,
) -> Result<Seq<TokenView>, CalcErrorView> {
    match rest {
        Ok(tokens) => Ok(first + tokens),
        Err(e) => Err(e),
    }
}

/// The tokens with every identifier that stands directly before a `(`
/// turned into the name of a function.
pub open spec fn mark_functions(tokens: Seq<TokenView>) -> Seq<TokenView> {
    Seq::new(
        tokens.len(),
        |i: int|
            match tokens[i] {
                TokenView::Variable(name) => if i + 1 < tokens.len() && tokens[i + 1]
                    == TokenView::LeftPar {
                    TokenView::Function(name)
                } else {
                    tokens[i]
                },
                _ => tokens[i],
            },
    )
}

/// The tokens of a line, or the failure that ends its lexing.
pub open spec fn lex(line: Seq<char>) -> Result<Seq<TokenView>, CalcErrorView> {
    match scan_from(line, 0) {
        Ok(tokens) => Ok(mark_functions(tokens)),
        Err(e) => Err(e),
    }
}

/// Putting tokens before an outcome in two steps or in one comes to the same.
pub proof fn lemma_put_before_twice(
    a: Seq<TokenView>,
    b: Seq<TokenView>,
    rest: Result<Seq<TokenView>, CalcErrorView>,
)
    ensures
        put_before(a, put_before(b, rest)) == put_before(a + b, rest),
        put_before(Seq::empty(), rest) == rest,
{
    match rest {
        Ok(tokens) => {
            assert(a + (b + tokens) =~= (a + b) + tokens);
            assert(Seq::<TokenView>::empty() + tokens =~= tokens);
        },
        Err(_) => {},
    }
}

/// The value of a character as a digit, 255 where it has none.
fn digit_of(c: char) -> (d: u32)
    ensures
        d == digit_value(c),
{
    if '0' <= c && c <= '9' {
        c as u32 - '0' as u32
    } else if 'a' <= c && c <= 'z' {
        c as u32 - 'a' as u32 + 10
    } else if 'A' <= c && c <= 'Z' {
        c as u32 - 'A' as u32 + 10
    } else {
        255
    }
}

/// Whether the characters from `from` up to `to` are all digits of the radix.
fn holds_digits(chars: &[char], from: usize, to: usize, radix: u32) -> (r: bool)
    requires
        from <= to <= chars@.len(),
    ensures
        r == all_digits(chars@.subrange(from as int, to as int), radix as nat),
{
    let mut i: usize = from;
    while i < to
        invariant
            from <= i <= to <= chars@.len(),
            forall|k: int| from <= k < i ==> digit_value(#[trigger] chars@[k]) < radix,
        decreases to - i,
    {
        if digit_of(chars[i]) >= radix {
            assert(chars@.subrange(from as int, to as int)[i - from] == chars@[i as int]);
            return false;
        }
        i += 1;
    }
    assert forall|k: int| 0 <= k < to - from implies digit_value(
        #[trigger] chars@.subrange(from as int, to as int)[k],
    ) < radix by {
        assert(chars@.subrange(from as int, to as int)[k] == chars@[from + k]);
    }
    true
}

/// The characters from `from` up to `to`, as a string.
fn text_of(chars: &[char], from: usize, to: usize) -> (text: String)
    requires
        from <= to <= chars@.len(),
    ensures
        text@ == chars@.subrange(from as int, to as int),
{
    let mut text = String::new();
    let mut i: usize = from;
    assert(chars@.subrange(from as int, from as int) =~= Seq::<char>::empty());
    while i < to
        invariant
            from <= i <= to <= chars@.len(),
            text@ == chars@.subrange(from as int, i as int),
        decreases to - i,
    {
        text.push(chars[i]);
        assert(chars@.subrange(from as int, i + 1) =~= chars@.subrange(from as int, i as int).push(
            chars@[i as int],
        ));
        i += 1;
    }
    text
}

/// The text of an optional prefix: nothing where there is none.
pub open spec fn prefix_text(prefix: Option<&str>) -> Seq<char> {
    match prefix {
        Some(p) => p@,
        None => Seq::empty(),
    }
}

/// The longest run of alphanumeric characters that starts at `from`;
/// nothing where `from` lies behind the end.
pub open spec fn alphanumeric_text(line: Seq<char>, from: int) -> Seq<char> {
    if 0 <= from <= line.len() {
        line.subrange(from, from + alphanumeric_run(line, from))
    } else {
        Seq::empty()
    }
}

/// Takes the longest run of alphanumeric characters that starts at `pos`,
/// and moves `pos` behind it: to the first character that is not
/// alphanumeric, or to the end. Returns the prefix, if one is given, with
/// the run behind it.
pub fn consume_alphanumeric(chars: &[char], pos: &mut usize, prefix: Option<&str>) -> (text: String)
    ensures
        *final(pos) == *old(pos) + alphanumeric_run(chars@, *old(pos) as int),
        *old(pos) <= chars@.len() ==> *final(pos) <= chars@.len(),
        text@ == prefix_text(prefix) + alphanumeric_text(chars@, *old(pos) as int),
{
    let mut text = match prefix {
        Some(p) => String::from_str(p),
        None => String::new(),
    };
    let start: usize = *pos;
    if start >= chars.len() {
        assert(text@ =~= prefix_text(prefix) + alphanumeric_text(chars@, start as int));
        return text;
    }
    assert(chars@.subrange(start as int, start as int) =~= Seq::<char>::empty());
    assert(text@ =~= prefix_text(prefix) + chars@.subrange(start as int, start as int));
    while *pos < chars.len() && is_letter_or_digit(chars[*pos])
        invariant
            start <= *pos <= chars@.len(),
            alphanumeric_run(chars@, start as int) == (*pos - start) + alphanumeric_run(
                chars@,
                *pos as int,
            ),
            text@ == prefix_text(prefix) + chars@.subrange(start as int, *pos as int),
        decreases chars@.len() - *pos,
    {
        text.push(chars[*pos]);
        assert(chars@.subrange(start as int, *pos + 1) =~= chars@.subrange(
            start as int,
            *pos as int,
        ).push(chars@[*pos as int]));
        assert(text@ =~= prefix_text(prefix) + chars@.subrange(start as int, *pos + 1));
        *pos += 1;
    }
    text
}

/// Takes the longest run of the digits `0` to `9` that starts at `pos`, and
/// moves `pos` behind it.
fn consume_digits(chars: &[char], pos: &mut usize) -> (text: String)
    requires
        *old(pos) <= chars@.len(),
    ensures
        *final(pos) == *old(pos) + digit_run(chars@, *old(pos) as int),
        *old(pos) <= *final(pos) <= chars@.len(),
        text@ == chars@.subrange(*old(pos) as int, *final(pos) as int),
{
    let start: usize = *pos;
    while *pos < chars.len() && is_ascii_digit(chars[*pos])
        invariant
            start <= *pos <= chars@.len(),
            digit_run(chars@, start as int) == (*pos - start) + digit_run(chars@, *pos as int),
        decreases chars@.len() - *pos,
    {
        *pos += 1;
    }
    text_of(chars, start, *pos)
}

/// Whether `r` is what `scanned` asks for, with `pos` moved from `before`
/// behind what was taken.
pub open spec fn scan_done(
    scanned: Scanned,
    before: usize,
    after: usize,
    r: Result<Option<Token>, CalcError>,
) -> bool {
    match scanned {
        Scanned::Fail(e) => r matches Err(err) && err@ == e,
        Scanned::Blank => r matches Ok(None) && after == before + 1,
        Scanned::Token(t, taken) => r matches Ok(Some(token)) && token@ == t && after == before
            + taken,
    }
}

/// Scans what a `0` at `index` begins; `pos` stands behind the `0`.
fn scan_zero_token(chars: &[char], pos: &mut usize, index: usize) -> (r: Result<
    Option<Token>,
    CalcError,
>)
    requires
        index < chars@.len(),
        *old(pos) == index + 1,
    ensures
        scan_done(scan_zero(chars@, index as int), index, *final(pos), r),
{
    if *pos >= chars.len() || !is_ascii_alphanumeric(chars[*pos]) {
        return Ok(Some(Token::Number(Natural::from_u64(0))));
    }
    let mark = chars[*pos];
    if mark != 'x' && mark != 'b' {
        return Err(CalcError::InvalidToken(index));
    }
    let radix: u32 = if mark == 'x' {
        16
    } else {
        2
    };
    *pos += 1;
    let from: usize = *pos;
    let digits = consume_alphanumeric(chars, pos, None);
    proof {
        lemma_alphanumeric_run_bounds(chars@, from as int);
    }
    assert(digits@ =~= chars@.subrange(from as int, *pos as int));
    if from == *pos || !holds_digits(chars, from, *pos, radix) {
        return Err(CalcError::InvalidToken(index));
    }
    match natural_from_digits(digits.as_str(), radix) {
        Some(n) => Ok(Some(Token::Number(n))),
        None => Err(CalcError::InvalidToken(index)),
    }
}

/// Scans what stands at `pos`, and moves `pos` behind it.
fn scan_token(chars: &[char], pos: &mut usize) -> (r: Result<Option<Token>, CalcError>)
    requires
        *old(pos) < chars@.len(),
    ensures
        scan_done(scan_at(chars@, *old(pos) as int), *old(pos), *final(pos), r),
{
    let index: usize = *pos;
    let c = chars[index];
    *pos = index + 1;
    if c == '+' {
        Ok(Some(Token::Plus))
    } else if c == '-' {
        Ok(Some(Token::Minus))
    } else if c == '*' {
        Ok(Some(Token::Mult))
    } else if c == '/' {
        Ok(Some(Token::Div))
    } else if c == '%' {
        Ok(Some(Token::Modulo))
    } else if c == '(' {
        Ok(Some(Token::LeftPar))
    } else if c == ')' {
        Ok(Some(Token::RightPar))
    } else if c == '=' {
        Ok(Some(Token::Equals))
    } else if c == '&' {
        Ok(Some(Token::BitwiseAnd))
    } else if c == '|' {
        Ok(Some(Token::BitwiseOr))
    } else if c == '^' {
        Ok(Some(Token::BitwiseXor))
    } else if c == '>' {
        if *pos < chars.len() && chars[*pos] == '>' {
            *pos += 1;
            Ok(Some(Token::BitshiftRight))
        } else {
            Err(CalcError::InvalidToken(index))
        }
    } else if c == '<' {
        if *pos < chars.len() && chars[*pos] == '<' {
            *pos += 1;
            Ok(Some(Token::BitshiftLeft))
        } else {
            Err(CalcError::InvalidToken(index))
        }
    } else if c == '0' {
        scan_zero_token(chars, pos, index)
    } else if c == RES_VAR {
        Ok(Some(Token::ResultVariable))
    } else if is_ascii_digit(c) {
        *pos = index;
        let digits = consume_digits(chars, pos);
        proof {
            lemma_digit_run_bounds(chars@, index as int);
            lemma_digit_run_bounds(chars@, index + 1);
        }
        match natural_from_digits(digits.as_str(), 10) {
            Some(n) => Ok(Some(Token::Number(n))),
            None => Err(CalcError::InvalidToken(index)),
        }
    } else if is_ascii_letter(c) {
        let mut first = String::new();
        first.push(c);
        let name = consume_alphanumeric(chars, pos, Some(first.as_str()));
        proof {
            lemma_alphanumeric_run_bounds(chars@, index + 1);
        }
        assert(first@ =~= seq![c]);
        assert(name@ =~= chars@.subrange(index as int, *pos as int));
        if is_command_name(name.as_str()) {
            Err(CalcError::SpecialVariableInvalidUse(name))
        } else {
            Ok(Some(Token::Variable(name)))
        }
    } else if is_blank(c) {
        Ok(None)
    } else {
        Err(CalcError::InvalidToken(index))
    }
}

/// Turns every identifier that stands directly before a `(` into the name
/// of a function, and leaves the other tokens as they are.
pub fn transform_tokens(tokens: &mut Vec<Token>)
    ensures
        tokens_view(final(tokens)@) == mark_functions(tokens_view(old(tokens)@)),
{
    let ghost before = tokens_view(tokens@);
    let n = tokens.len();
    let mut i: usize = 0;
    while i < n
        invariant
            i <= n,
            n == tokens@.len(),
            before.len() == n,
            forall|k: int| 0 <= k < i ==> (#[trigger] tokens@[k])@ == mark_functions(before)[k],
            forall|k: int| i <= k < n ==> (#[trigger] tokens@[k])@ == before[k],
        decreases n - i,
    {
        let followed = i + 1 < n && matches!(tokens[i + 1], Token::LeftPar);
        let renamed = match &tokens[i] {
            Token::Variable(name) => if followed {
                Some(Token::Function(name.clone()))
            } else {
                None
            },
            _ => None,
        };
        match renamed {
            Some(token) => {
                tokens.set(i, token);
            },
            None => {},
        }
        i += 1;
    }
    assert(tokens_view(tokens@) =~= mark_functions(before));
}

/// The outcome of lexing, as mathematics.
pub open spec fn lexed_view(r: Result<Vec<Token>, CalcError>) -> Result<
    Seq<TokenView>,
    CalcErrorView,
> {
    match r {
        Ok(tokens) => Ok(tokens_view(tokens@)),
        Err(e) => Err(e@),
    }
}

/// Makes the list of the tokens of a line.
///
/// Lexing fails at the first character that begins no token, with the index
/// of that character, and on the first identifier that is the name of a
/// command, with that name.
pub fn tokenize(line: &str) -> (r: Result<Vec<Token>, CalcError>)
    ensures
        lexed_view(r) == lex(line@),
{
    let chars = chars_of(line);
    let mut tokens: Vec<Token> = Vec::new();
    let mut pos: usize = 0;
    proof {
        lemma_put_before_twice(Seq::empty(), Seq::empty(), scan_from(chars@, 0));
        assert(tokens_view(tokens@) =~= Seq::empty());
    }
    while pos < chars.len()
        invariant
            pos <= chars@.len(),
            chars@ == line@,
            scan_from(chars@, 0) == put_before(tokens_view(tokens@), scan_from(chars@, pos as int)),
        decreases chars@.len() - pos,
    {
        let ghost taken_so_far = tokens_view(tokens@);
        let ghost at = pos as int;
        proof {
            lemma_scan_at_taken(chars@, at);
        }
        match scan_token(chars.as_slice(), &mut pos) {
            Err(e) => {
                return Err(e);
            },
            Ok(None) => {},
            Ok(Some(token)) => {
                tokens.push(token);
                proof {
                    assert(tokens_view(tokens@) =~= taken_so_far + seq![token@]);
                    lemma_put_before_twice(
                        taken_so_far,
                        seq![token@],
                        scan_from(chars@, pos as int),
                    );
                }
            },
        }
    }
    proof {
        lemma_put_before_twice(tokens_view(tokens@), Seq::empty(), Ok(Seq::empty()));
        assert(tokens_view(tokens@) + Seq::<TokenView>::empty() =~= tokens_view(tokens@));
    }
    transform_tokens(&mut tokens);
    Ok(tokens)
}

} // verus!
