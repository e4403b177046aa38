//! The parser: from tokens to an expression tree.

use crate::error::{CalcError, CalcErrorView};
use crate::number::Natural;
use crate::tokenizer::{tokens_view, Token, TokenView};
use vstd::prelude::*;

verus! {

/// The name under which the value of the last bare expression is kept. It
/// is no letter and no digit, so no identifier can be equal to it.
pub const RES_VAR: char = '$';

/// A line: a value given to a name, or an expression alone.
#[derive(Debug, PartialEq)]
pub enum Assign {
    Assign(String, ExprBitwise),
    ExprBitwise(ExprBitwise),
}

/// The loosest level: the bitwise operators and the shifts.
#[derive(Debug, PartialEq)]
pub enum ExprBitwise {
    BitwiseOr(Box<ExprBitwise>, Expr),
    BitwiseAnd(Box<ExprBitwise>, Expr),
    BitwiseXor(Box<ExprBitwise>, Expr),
    BitshiftLeft(Box<ExprBitwise>, Expr),
    BitshiftRight(Box<ExprBitwise>, Expr),
    Expr(Expr),
}

/// Sums, differences and negation.
#[derive(Debug, PartialEq)]
pub enum Expr {
    Sum(Box<Expr>, Term),
    Subtract(Box<Expr>, Term),
    Term(Term),
    Negative(Box<Expr>),
}

/// Products, quotients and remainders.
#[derive(Debug, PartialEq)]
pub enum Term {
    Mult(Box<Term>, Factor),
    Div(Box<Term>, Factor),
    Modulo(Box<Term>, Factor),
    Factor(Factor),
}

/// The tightest level: a number, a variable, an expression in parentheses,
/// or a function applied to its arguments.
#[derive(Debug, PartialEq)]
pub enum Factor {
    Number(Natural),
    Variable(String),
    Parenthesis(Box<Expr>),
    Function(String, Vec<Expr>),
}

/// The mathematical content of an [`Assign`].
pub enum AssignView {
    Assign(Seq<char>, ExprBitwiseView),
    ExprBitwise(ExprBitwiseView),
}

/// The mathematical content of an [`ExprBitwise`].
pub enum ExprBitwiseView {
    BitwiseOr(Box<ExprBitwiseView>, ExprView),
    BitwiseAnd(Box<ExprBitwiseView>, ExprView),
    BitwiseXor(Box<ExprBitwiseView>, ExprView),
    BitshiftLeft(Box<ExprBitwiseView>, ExprView),
    BitshiftRight(Box<ExprBitwiseView>, ExprView),
    Expr(ExprView),
}

/// The mathematical content of an [`Expr`].
pub enum ExprView {
    Sum(Box<ExprView>, TermView),
    Subtract(Box<ExprView>, TermView),
    Term(TermView),
    Negative(Box<ExprView>),
}

/// The mathematical content of a [`Term`].
pub enum TermView {
    Mult(Box<TermView>, FactorView),
    Div(Box<TermView>, FactorView),
    Modulo(Box<TermView>, FactorView),
    Factor(FactorView),
}

/// The mathematical content of a [`Factor`].
pub enum FactorView {
    Number(nat),
    Variable(Seq<char>),
    Parenthesis(Box<ExprView>),
    Function(Seq<char>, Seq<ExprView>),
}

/// The mathematical content of a tree of the loosest level.
pub open spec fn expr_bitwise_view(e: ExprBitwise) -> ExprBitwiseView
    decreases e,
{
    match e {
        ExprBitwise::BitwiseOr(l, r) => ExprBitwiseView::BitwiseOr(
            Box::new(expr_bitwise_view(*l)),
            expr_view(r),
        ),
        ExprBitwise::BitwiseAnd(l, r) => ExprBitwiseView::BitwiseAnd(
            Box::new(expr_bitwise_view(*l)),
            expr_view(r),
        ),
        ExprBitwise::BitwiseXor(l, r) => ExprBitwiseView::BitwiseXor(
            Box::new(expr_bitwise_view(*l)),
            expr_view(r),
        ),
        ExprBitwise::BitshiftLeft(l, r) => ExprBitwiseView::BitshiftLeft(
            Box::new(expr_bitwise_view(*l)),
            expr_view(r),
        ),
        ExprBitwise::BitshiftRight(l, r) => ExprBitwiseView::BitshiftRight(
            Box::new(expr_bitwise_view(*l)),
            expr_view(r),
        ),
        ExprBitwise::Expr(e) => ExprBitwiseView::Expr(expr_view(e)),
    }
}

/// The mathematical content of a tree of the level of sums.
pub open spec fn expr_view(e: Expr) -> ExprView
    decreases e,
{
    match e {
        Expr::Sum(l, r) => ExprView::Sum(Box::new(expr_view(*l)), term_view(r)),
        Expr::Subtract(l, r) => ExprView::Subtract(Box::new(expr_view(*l)), term_view(r)),
        Expr::Term(t) => ExprView::Term(term_view(t)),
        Expr::Negative(e) => ExprView::Negative(Box::new(expr_view(*e))),
    }
}

/// The mathematical content of a tree of the level of products.
pub open spec fn term_view(t: Term) -> TermView
    decreases t,
{
    match t {
        Term::Mult(l, r) => TermView::Mult(Box::new(term_view(*l)), factor_view(r)),
        Term::Div(l, r) => TermView::Div(Box::new(term_view(*l)), factor_view(r)),
        Term::Modulo(l, r) => TermView::Modulo(Box::new(term_view(*l)), factor_view(r)),
        Term::Factor(f) => TermView::Factor(factor_view(f)),
    }
}

/// The mathematical content of a tree of the tightest level.
pub open spec fn factor_view(f: Factor) -> FactorView
    decreases f,
{
    match f {
        Factor::Number(n) => FactorView::Number(n@),
        Factor::Variable(name) => FactorView::Variable(name@),
        Factor::Parenthesis(e) => FactorView::Parenthesis(Box::new(expr_view(*e))),
        Factor::Function(name, arguments) => FactorView::Function(
            name@,
            Seq::new(
                arguments@.len(),
                |i: int|
                    if 0 <= i < arguments@.len() {
                        expr_view(arguments@[i])
                    } else {
                        arbitrary()
                    },
            ),
        ),
    }
}

impl View for Assign {
    type V = AssignView;

    open spec fn view(&self) -> AssignView {
        match self {
            Assign::Assign(name, e) => AssignView::Assign(name@, expr_bitwise_view(*e)),
            Assign::ExprBitwise(e) => AssignView::ExprBitwise(expr_bitwise_view(*e)),
        }
    }
}

impl View for ExprBitwise {
    type V = ExprBitwiseView;

    open spec fn view(&self) -> ExprBitwiseView {
        expr_bitwise_view(*self)
    }
}

impl View for Expr {
    type V = ExprView;

    open spec fn view(&self) -> ExprView {
        expr_view(*self)
    }
}

impl View for Term {
    type V = TermView;

    open spec fn view(&self) -> TermView {
        term_view(*self)
    }
}

impl View for Factor {
    type V = FactorView;

    open spec fn view(&self) -> FactorView {
        factor_view(*self)
    }
}

/// The three levels at which a slice of tokens is split at an operator,
/// loosest first.
#[derive(Debug, Clone, Copy, PartialEq, Eq, Structural)]
pub enum Level {
    Bitwise,
    Additive,
    Multiplicative,
}

/// Whether `token`, at `index` of the slice, is an operator of the level. A
/// minus that begins the slice is a sign, not an operator.
pub open spec fn splits_at(level: Level, token: TokenView, index: int) -> bool {
    match level {
        Level::Bitwise => token == TokenView::BitwiseAnd || token == TokenView::BitwiseOr || token
            == TokenView::BitwiseXor || token == TokenView::BitshiftRight || token
            == TokenView::BitshiftLeft,
        Level::Additive => token == TokenView::Plus || (token == TokenView::Minus && index > 0),
        Level::Multiplicative => token == TokenView::Mult || token == TokenView::Div || token
            == TokenView::Modulo,
    }
}

/// The index behind the `)` that closes the parentheses open at `from`, of
/// which there are `depth`; nothing where the tokens end before that.
pub open spec fn closing(tokens: Seq<TokenView>, from: int, depth: int) -> Option<int>
    decreases tokens.len() - from,
{
    if from < 0 || from >= tokens.len() {
        None
    } else {
        let d = if tokens[from] == TokenView::LeftPar {
            depth + 1
        } else if tokens[from] == TokenView::RightPar {
            depth - 1
        } else {
            depth
        };
        if d == 0 {
            Some(from + 1)
        } else {
            closing(tokens, from + 1, d)
        }
    }
}

/// A closing parenthesis lies behind the place from which it was sought.
pub proof fn lemma_closing_bounds(tokens: Seq<TokenView>, from: int, depth: int)
    requires
        0 <= from,
    ensures
        closing(tokens, from, depth) matches Some(next) ==> from < next <= tokens.len(),
    decreases tokens.len() - from,
{
    if from < tokens.len() {
        let d = if tokens[from] == TokenView::LeftPar {
            depth + 1
        } else if tokens[from] == TokenView::RightPar {
            depth - 1
        } else {
            depth
        };
        if d != 0 {
            lemma_closing_bounds(tokens, from + 1, d);
        }
    }
}

/// Where the slice is split at the given level: at the first operator of
/// the level that stands at or behind `from` and outside parentheses. The
/// search fails where a parenthesis that it meets is never closed, and finds
/// nothing where the slice holds no such operator.
pub open spec fn split_point(tokens: Seq<TokenView>, from: int, level: Level) -> Result<
    Option<int>,
    CalcErrorView,
>
    decreases tokens.len() - from,
{
    if from < 0 || from >= tokens.len() {
        Ok(None)
    } else if splits_at(level, tokens[from], from) {
        Ok(Some(from))
    } else if tokens[from] == TokenView::LeftPar {
        match closing(tokens, from + 1, 1) {
            None => Err(CalcErrorView::UnclosedParanthesis),
            Some(next) => {
                proof {
                    lemma_closing_bounds(tokens, from + 1, 1);
                }
                split_point(tokens, next, level)
            },
        }
    } else {
        split_point(tokens, from + 1, level)
    }
}

/// A split point is an index of the slice, at an operator of the level.
pub proof fn lemma_split_point_bounds(tokens: Seq<TokenView>, from: int, level: Level)
    requires
        0 <= from,
    ensures
        split_point(tokens, from, level) matches Ok(Some(i)) ==> from <= i < tokens.len()
            && splits_at(level, tokens[i], i),
    decreases tokens.len() - from,
{
    if from < tokens.len() && !splits_at(level, tokens[from], from) {
        if tokens[from] == TokenView::LeftPar {
            lemma_closing_bounds(tokens, from + 1, 1);
            match closing(tokens, from + 1, 1) {
                None => {},
                Some(next) => {
                    lemma_split_point_bounds(tokens, next, level);
                },
            }
        } else {
            lemma_split_point_bounds(tokens, from + 1, level);
        }
    }
}

/// The node that a bitwise operator makes of its two sides.
pub open spec fn bitwise_node(
    operator: TokenView,
    lhs: ExprBitwiseView,
    rhs: ExprView,
) -> ExprBitwiseView {
    match operator {
        TokenView::BitwiseAnd => ExprBitwiseView::BitwiseAnd(Box::new(lhs), rhs),
        TokenView::BitwiseOr => ExprBitwiseView::BitwiseOr(Box::new(lhs), rhs),
        TokenView::BitwiseXor => ExprBitwiseView::BitwiseXor(Box::new(lhs), rhs),
        TokenView::BitshiftRight => ExprBitwiseView::BitshiftRight(Box::new(lhs), rhs),
        _ => ExprBitwiseView::BitshiftLeft(Box::new(lhs), rhs),
    }
}

/// The node that `+` or `-` makes of its two sides.
pub open spec fn additive_node(operator: TokenView, lhs: ExprView, rhs: TermView) -> ExprView {
    match operator {
        TokenView::Plus => ExprView::Sum(Box::new(lhs), rhs),
        _ => ExprView::Subtract(Box::new(lhs), rhs),
    }
}

/// The node that `*`, `/` or `%` makes of its two sides.
pub open spec fn multiplicative_node(
    operator: TokenView,
    lhs: TermView,
    rhs: FactorView,
) -> TermView {
    match operator {
        TokenView::Mult => TermView::Mult(Box::new(lhs), rhs),
        TokenView::Div => TermView::Div(Box::new(lhs), rhs),
        _ => TermView::Modulo(Box::new(lhs), rhs),
    }
}

/// The tree of a slice at the loosest level.
///
/// The slice is split at its first bitwise operator outside parentheses: what
/// stands before it is parsed at this level, what stands behind it at the
/// next tighter one. A slice without such an operator is parsed at the next
/// tighter level as a whole.
pub open spec fn parse_bitwise_expr_spec(tokens: Seq<TokenView>) -> Result<
    ExprBitwiseView,
    CalcErrorView,
>
    decreases tokens.len(), 3int,
{
    match split_point(tokens, 0, Level::Bitwise) {
        Err(e) => Err(e),
        Ok(Some(i)) => {
            proof {
                lemma_split_point_bounds(tokens, 0, Level::Bitwise);
            }
            match parse_bitwise_expr_spec(tokens.subrange(0, i)) {
                Err(e) => Err(e),
                Ok(lhs) => match parse_expr_spec(tokens.subrange(i + 1, tokens.len() as int)) {
                    Err(e) => Err(e),
                    Ok(rhs) => Ok(bitwise_node(tokens[i], lhs, rhs)),
                },
            }
        },
        Ok(None) => match parse_expr_spec(tokens) {
            Err(e) => Err(e),
            Ok(e) => Ok(ExprBitwiseView::Expr(e)),
        },
    }
}

/// The tree of a slice at the level of sums.
///
/// A slice that begins with a minus is the negation of what follows, and
/// what follows must not begin with a minus again. Any other slice is split
/// at its first `+` or `-` outside parentheses.
pub open spec fn parse_expr_spec(tokens: Seq<TokenView>) -> Result<ExprView, CalcErrorView>
    decreases tokens.len(), 2int,
{
    if tokens.len() > 0 && tokens[0] == TokenView::Minus {
        if tokens.len() > 1 && tokens[1] == TokenView::Minus {
            Err(CalcErrorView::InvalidExpression)
        } else {
            match parse_expr_spec(tokens.subrange(1, tokens.len() as int)) {
                Err(e) => Err(e),
                Ok(e) => Ok(ExprView::Negative(Box::new(e))),
            }
        }
    } else {
        match split_point(tokens, 0, Level::Additive) {
            Err(e) => Err(e),
            Ok(Some(i)) => {
                proof {
                    lemma_split_point_bounds(tokens, 0, Level::Additive);
                }
                match parse_expr_spec(tokens.subrange(0, i)) {
                    Err(e) => Err(e),
                    Ok(lhs) => match parse_term_spec(tokens.subrange(i + 1, tokens.len() as int)) {
                        Err(e) => Err(e),
                        Ok(rhs) => Ok(additive_node(tokens[i], lhs, rhs)),
                    },
                }
            },
            Ok(None) => match parse_term_spec(tokens) {
                Err(e) => Err(e),
                Ok(t) => Ok(ExprView::Term(t)),
            },
        }
    }
}

/// The tree of a slice at the level of products: split at its first `*`,
/// `/` or `%` outside parentheses.
pub open spec fn parse_term_spec(tokens: Seq<TokenView>) -> Result<TermView, CalcErrorView>
    decreases tokens.len(), 1int,
{
    match split_point(tokens, 0, Level::Multiplicative) {
        Err(e) => Err(e),
        Ok(Some(i)) => {
            proof {
                lemma_split_point_bounds(tokens, 0, Level::Multiplicative);
            }
            match parse_term_spec(tokens.subrange(0, i)) {
                Err(e) => Err(e),
                Ok(lhs) => match parse_factor_spec(tokens.subrange(i + 1, tokens.len() as int)) {
                    Err(e) => Err(e),
                    Ok(rhs) => Ok(multiplicative_node(tokens[i], lhs, rhs)),
                },
            }
        },
        Ok(None) => match parse_factor_spec(tokens) {
            Err(e) => Err(e),
            Ok(f) => Ok(TermView::Factor(f)),
        },
    }
}

/// The tree of a slice at the tightest level.
///
/// The slice must be one number, one variable, the result variable, an
/// expression between a `(` at its start and a `)` at its end, or the name of
/// a function with such a pair of parentheses behind it. Between the
/// parentheses of a function stands nothing, or the one argument.
pub open spec fn parse_factor_spec(tokens: Seq<TokenView>) -> Result<FactorView, CalcErrorView>
    decreases tokens.len(), 0int,
{
    let n = tokens.len() as int;
    if n == 0 {
        Err(CalcErrorView::InvalidExpression)
    } else {
        match tokens[0] {
            TokenView::Number(value) => if n == 1 {
                Ok(FactorView::Number(value))
            } else {
                Err(CalcErrorView::InvalidExpression)
            },
            TokenView::Variable(name) => if n == 1 {
                Ok(FactorView::Variable(name))
            } else {
                Err(CalcErrorView::InvalidExpression)
            },
            TokenView::ResultVariable => if n == 1 {
                Ok(FactorView::Variable(seq![RES_VAR]))
            } else {
                Err(CalcErrorView::InvalidExpression)
            },
            TokenView::LeftPar => if n >= 2 && tokens[n - 1] == TokenView::RightPar {
                match parse_expr_spec(tokens.subrange(1, n - 1)) {
                    Err(e) => Err(e),
                    Ok(e) => Ok(FactorView::Parenthesis(Box::new(e))),
                }
            } else {
                Err(CalcErrorView::UnclosedParanthesis)
            },
            TokenView::Function(name) => if n < 2 || tokens[1] != TokenView::LeftPar {
                Err(CalcErrorView::InvalidExpression)
            } else if n < 3 || tokens[n - 1] != TokenView::RightPar {
                Err(CalcErrorView::UnclosedParanthesis)
            } else if n == 3 {
                Ok(FactorView::Function(name, Seq::empty()))
            } else {
                match parse_expr_spec(tokens.subrange(2, n - 1)) {
                    Err(e) => Err(e),
                    Ok(e) => Ok(FactorView::Function(name, seq![e])),
                }
            },
            _ => Err(CalcErrorView::InvalidExpression),
        }
    }
}

/// The tree of a line.
///
/// Where the line begins with a variable and `=`, what follows is the value
/// to give to that variable. Any other line is an expression alone.
pub open spec fn parse_assignment_spec(tokens: Seq<TokenView>) -> Result<AssignView, CalcErrorView> {
    if tokens.len() >= 2 && tokens[0] is Variable && tokens[1] == TokenView::Equals {
        match parse_bitwise_expr_spec(tokens.subrange(2, tokens.len() as int)) {
            Err(e) => Err(e),
            Ok(e) => Ok(AssignView::Assign(tokens[0]->Variable_0, e)),
        }
    } else {
        match parse_bitwise_expr_spec(tokens) {
            Err(e) => Err(e),
            Ok(e) => Ok(AssignView::ExprBitwise(e)),
        }
    }
}

/// The outcome of a parse, as mathematics.
pub open spec fn parsed_view<T: View>(r: Result<T, CalcError>) -> Result<T::V, CalcErrorView> {
    match r {
        Ok(tree) => Ok(tree@),
        Err(e) => Err(e@),
    }
}

/// The outcome of the search for a split point, as mathematics.
pub open spec fn split_view(r: Result<Option<usize>, CalcError>) -> Result<
    Option<int>,
    CalcErrorView,
> {
    match r {
        Ok(Some(i)) => Ok(Some(i as int)),
        Ok(None) => Ok(None),
        Err(e) => Err(e@),
    }
}

/// The contents of a part of a slice are that part of the slice's contents.
pub proof fn lemma_tokens_view_subrange(tokens: Seq<Token>, from: int, to: int)
    requires
        0 <= from <= to <= tokens.len(),
    ensures
        tokens_view(tokens.subrange(from, to)) == tokens_view(tokens).subrange(from, to),
{
    assert(tokens_view(tokens.subrange(from, to)) =~= tokens_view(tokens).subrange(from, to));
}

/// Whether `token`, at `index` of its slice, is an operator of the level.
fn is_operator(level: Level, token: &Token, index: usize) -> (r: bool)
    ensures
        r == splits_at(level, token@, index as int),
{
    match level {
        Level::Bitwise => match token {
            Token::BitwiseAnd => true,
            Token::BitwiseOr => true,
            Token::BitwiseXor => true,
            Token::BitshiftRight => true,
            Token::BitshiftLeft => true,
            _ => false,
        },
        Level::Additive => match token {
            Token::Plus => true,
            Token::Minus => index > 0,
            _ => false,
        },
        Level::Multiplicative => match token {
            Token::Mult => true,
            Token::Div => true,
            Token::Modulo => true,
            _ => false,
        },
    }
}

/// Seeks the `)` that closes a parenthesis opened just before `from`, and
/// returns the index behind it.
pub fn matching_paranthesis(tokens: &[Token], from: usize) -> (r: Option<usize>)
    ensures
        match r {
            Some(next) => closing(tokens_view(tokens@), from as int, 1) == Some(next as int),
            None => closing(tokens_view(tokens@), from as int, 1).is_none(),
        },
{
    // The parentheses that are open inside the one that is sought.
    let mut inner: usize = 0;
    let mut i: usize = from;
    while i < tokens.len()
        invariant
            from <= i,
            inner <= i - from,
            closing(tokens_view(tokens@), from as int, 1) == closing(
                tokens_view(tokens@),
                i as int,
                inner + 1,
            ),
        decreases tokens@.len() - i,
    {
        match &tokens[i] {
            Token::LeftPar => {
                inner += 1;
            },
            Token::RightPar => {
                if inner == 0 {
                    return Some(i + 1);
                }
                inner -= 1;
            },
            _ => {},
        }
        i += 1;
    }
    None
}

/// Seeks the place at which the slice is split at the given level.
fn find_split(tokens: &[Token], level: Level) -> (r: Result<Option<usize>, CalcError>)
    ensures
        split_view(r) == split_point(tokens_view(tokens@), 0, level),
{
    let mut i: usize = 0;
    while i < tokens.len()
        invariant
            split_point(tokens_view(tokens@), 0, level) == split_point(
                tokens_view(tokens@),
                i as int,
                level,
            ),
        decreases tokens@.len() - i,
    {
        if is_operator(level, &tokens[i], i) {
            return Ok(Some(i));
        }
        let opens = match &tokens[i] {
            Token::LeftPar => true,
            _ => false,
        };
        if opens {
            proof {
                lemma_closing_bounds(tokens_view(tokens@), i + 1, 1);
            }
            match matching_paranthesis(tokens, i + 1) {
                None => {
                    return Err(CalcError::UnclosedParanthesis);
                },
                Some(next) => {
                    i = next;
                },
            }
        } else {
            i += 1;
        }
    }
    Ok(None)
}

/// Parses a slice at the loosest level, that of the bitwise operators.
pub fn parse_bitwise_expr(tokens: &[Token]) -> (r: Result<ExprBitwise, CalcError>)
    ensures
        parsed_view(r) == parse_bitwise_expr_spec(tokens_view(tokens@)),
    decreases tokens@.len(), 3int,
{
    let n = tokens.len();
    match find_split(tokens, Level::Bitwise) {
        Err(e) => Err(e),
        Ok(Some(i)) => {
            proof {
                lemma_split_point_bounds(tokens_view(tokens@), 0, Level::Bitwise);
                lemma_tokens_view_subrange(tokens@, 0, i as int);
                lemma_tokens_view_subrange(tokens@, i + 1, n as int);
            }
            let lhs = match parse_bitwise_expr(&tokens[0..i]) {
                Ok(lhs) => lhs,
                Err(e) => {
                    return Err(e);
                },
            };
            let rhs = match parse_expr(&tokens[i + 1..n]) {
                Ok(rhs) => rhs,
                Err(e) => {
                    return Err(e);
                },
            };
            Ok(
                match &tokens[i] {
                    Token::BitwiseAnd => ExprBitwise::BitwiseAnd(Box::new(lhs), rhs),
                    Token::BitwiseOr => ExprBitwise::BitwiseOr(Box::new(lhs), rhs),
                    Token::BitwiseXor => ExprBitwise::BitwiseXor(Box::new(lhs), rhs),
                    Token::BitshiftRight => ExprBitwise::BitshiftRight(Box::new(lhs), rhs),
                    _ => ExprBitwise::BitshiftLeft(Box::new(lhs), rhs),
                },
            )
        },
        Ok(None) => match parse_expr(tokens) {
            Ok(e) => Ok(ExprBitwise::Expr(e)),
            Err(e) => Err(e),
        },
    }
}

/// Parses a slice at the level of sums, differences and negation.
pub fn parse_expr(tokens: &[Token]) -> (r: Result<Expr, CalcError>)
    ensures
        parsed_view(r) == parse_expr_spec(tokens_view(tokens@)),
    decreases tokens@.len(), 2int,
{
    let n = tokens.len();
    let negated = n > 0 && match &tokens[0] {
        Token::Minus => true,
        _ => false,
    };
    if negated {
        let twice = n > 1 && match &tokens[1] {
            Token::Minus => true,
            _ => false,
        };
        if twice {
            return Err(CalcError::InvalidExpression);
        }
        proof {
            lemma_tokens_view_subrange(tokens@, 1, n as int);
        }
        return match parse_expr(&tokens[1..n]) {
            Ok(e) => Ok(Expr::Negative(Box::new(e))),
            Err(e) => Err(e),
        };
    }
    match find_split(tokens, Level::Additive) {
        Err(e) => Err(e),
        Ok(Some(i)) => {
            proof {
                lemma_split_point_bounds(tokens_view(tokens@), 0, Level::Additive);
                lemma_tokens_view_subrange(tokens@, 0, i as int);
                lemma_tokens_view_subrange(tokens@, i + 1, n as int);
            }
            let lhs = match parse_expr(&tokens[0..i]) {
                Ok(lhs) => lhs,
                Err(e) => {
                    return Err(e);
                },
            };
            let rhs = match parse_term(&tokens[i + 1..n]) {
                Ok(rhs) => rhs,
                Err(e) => {
                    return Err(e);
                },
            };
            Ok(
                match &tokens[i] {
                    Token::Plus => Expr::Sum(Box::new(lhs), rhs),
                    _ => Expr::Subtract(Box::new(lhs), rhs),
                },
            )
        },
        Ok(None) => match parse_term(tokens) {
            Ok(t) => Ok(Expr::Term(t)),
            Err(e) => Err(e),
        },
    }
}

/// Parses a slice at the level of products, quotients and remainders.
pub fn parse_term(tokens: &[Token]) -> (r: Result<Term, CalcError>)
    ensures
        parsed_view(r) == parse_term_spec(tokens_view(tokens@)),
    decreases tokens@.len(), 1int,
{
    let n = tokens.len();
    match find_split(tokens, Level::Multiplicative) {
        Err(e) => Err(e),
        Ok(Some(i)) => {
            proof {
                lemma_split_point_bounds(tokens_view(tokens@), 0, Level::Multiplicative);
                lemma_tokens_view_subrange(tokens@, 0, i as int);
                lemma_tokens_view_subrange(tokens@, i + 1, n as int);
            }
            let lhs = match parse_term(&tokens[0..i]) {
                Ok(lhs) => lhs,
                Err(e) => {
                    return Err(e);
                },
            };
            let rhs = match parse_factor(&tokens[i + 1..n]) {
                Ok(rhs) => rhs,
                Err(e) => {
                    return Err(e);
                },
            };
            Ok(
                match &tokens[i] {
                    Token::Mult => Term::Mult(Box::new(lhs), rhs),
                    Token::Div => Term::Div(Box::new(lhs), rhs),
                    _ => Term::Modulo(Box::new(lhs), rhs),
                },
            )
        },
        Ok(None) => match parse_factor(tokens) {
            Ok(f) => Ok(Term::Factor(f)),
            Err(e) => Err(e),
        },
    }
}

/// Whether the token is a `(`.
fn is_left_par(token: &Token) -> (r: bool)
    ensures
        r == (token@ == TokenView::LeftPar),
{
    match token {
        Token::LeftPar => true,
        _ => false,
    }
}

/// Whether the token is a `)`.
fn is_right_par(token: &Token) -> (r: bool)
    ensures
        r == (token@ == TokenView::RightPar),
{
    match token {
        Token::RightPar => true,
        _ => false,
    }
}

/// Parses a slice at the tightest level.
pub fn parse_factor(tokens: &[Token]) -> (r: Result<Factor, CalcError>)
    ensures
        parsed_view(r) == parse_factor_spec(tokens_view(tokens@)),
    decreases tokens@.len(), 0int,
{
    let n = tokens.len();
    if n == 0 {
        return Err(CalcError::InvalidExpression);
    }
    match &tokens[0] {
        Token::Number(value) => if n == 1 {
            Ok(Factor::Number(value.clone()))
        } else {
            Err(CalcError::InvalidExpression)
        },
        Token::Variable(name) => if n == 1 {
            Ok(Factor::Variable(name.clone()))
        } else {
            Err(CalcError::InvalidExpression)
        },
        Token::ResultVariable => if n == 1 {
            Ok(Factor::Variable(result_name()))
        } else {
            Err(CalcError::InvalidExpression)
        },
        Token::LeftPar => if n >= 2 && is_right_par(&tokens[n - 1]) {
            proof {
                lemma_tokens_view_subrange(tokens@, 1, n - 1);
            }
            match parse_expr(&tokens[1..n - 1]) {
                Ok(e) => Ok(Factor::Parenthesis(Box::new(e))),
                Err(e) => Err(e),
            }
        } else {
            Err(CalcError::UnclosedParanthesis)
        },
        Token::Function(name) => if n < 2 || !is_left_par(&tokens[1]) {
            Err(CalcError::InvalidExpression)
        } else if n < 3 || !is_right_par(&tokens[n - 1]) {
            Err(CalcError::UnclosedParanthesis)
        } else if n == 3 {
            let arguments: Vec<Expr> = Vec::new();
            let f = Factor::Function(name.clone(), arguments);
            assert(f@->Function_1 =~= Seq::empty());
            Ok(f)
        } else {
            proof {
                lemma_tokens_view_subrange(tokens@, 2, n - 1);
            }
            match parse_expr(&tokens[2..n - 1]) {
                Ok(e) => {
                    let ghost argument = e@;
                    let mut arguments: Vec<Expr> = Vec::new();
                    arguments.push(e);
                    let f = Factor::Function(name.clone(), arguments);
                    assert(f@->Function_1 =~= seq![argument]);
                    Ok(f)
                },
                Err(e) => Err(e),
            }
        },
        _ => Err(CalcError::InvalidExpression),
    }
}

/// The name of the result variable, as a string.
pub fn result_name() -> (name: String)
    ensures
        name@ == seq![RES_VAR],
{
    let mut name = String::new();
    name.push(RES_VAR);
    assert(name@ =~= seq![RES_VAR]);
    name
}

/// Parses the tokens of a line.
///
/// Where the line begins with a variable and `=`, what follows is the value
/// to give to that variable. Any other line is an expression alone.
pub fn parse_assignment(tokens: &[Token]) -> (r: Result<Assign, CalcError>)
    ensures
        parsed_view(r) == parse_assignment_spec(tokens_view(tokens@)),
{
    let n = tokens.len();
    if n >= 2 {
        let assigns = match &tokens[1] {
            Token::Equals => true,
            _ => false,
        };
        match &tokens[0] {
            Token::Variable(name) => {
                if assigns {
                    proof {
                        lemma_tokens_view_subrange(tokens@, 2, n as int);
                    }
                    return match parse_bitwise_expr(&tokens[2..n]) {
                        Ok(e) => Ok(Assign::Assign(name.clone(), e)),
                        Err(e) => Err(e),
                    };
                }
            },
            _ => {},
        }
    }
    match parse_bitwise_expr(tokens) {
        Ok(e) => Ok(Assign::ExprBitwise(e)),
        Err(e) => Err(e),
    }
}

} // verus!
