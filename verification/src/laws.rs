//! What holds of the lexer, the parser and the evaluator together.

use crate::chars::{alphanumeric, ascii_alphanumeric, ascii_digit};
use crate::commands::is_reserved;
use crate::error::CalcErrorView;
use crate::evaluator::{
    eval_arguments_spec, eval_assignment_spec, eval_expr_bitwise_spec, eval_expr_spec,
    eval_factor_spec, eval_term_spec, max_shift,
};
use crate::functions::{function_of, pow_spec, sqrt_spec, Function};
use crate::number::{
    all_digits, digit_value, digits_value, int_and, int_or, int_xor, is_floor_sqrt,
    truncating_div, truncating_rem,
};
use crate::parser::RES_VAR;
use crate::parser::{
    additive_node, bitwise_node, multiplicative_node, parse_assignment_spec,
    parse_bitwise_expr_spec, parse_expr_spec, parse_factor_spec, parse_term_spec, split_point,
    splits_at, AssignView, ExprBitwiseView, ExprView, FactorView, Level, TermView,
};
use crate::session::interpret;
use crate::tokenizer::{
    alphanumeric_run, digit_run, lemma_scan_at_taken, lex, mark_functions, scan_at, scan_from,
    scan_zero, Scanned, TokenView,
};
use vstd::arithmetic::power::pow;
use vstd::prelude::*;

verus! {

/// Whether the token is one of the ten operators that stand between two
/// operands.
pub open spec fn is_binary_operator(op: TokenView) -> bool {
    splits_at(Level::Bitwise, op, 1) || splits_at(Level::Additive, op, 1) || splits_at(
        Level::Multiplicative,
        op,
        1,
    )
}

/// The exact result of an operator on two numbers that are not negative,
/// or the failure that the operator ends in.
pub open spec fn binary_result(op: TokenView, a: nat, b: nat) -> Result<int, CalcErrorView> {
    match op {
        TokenView::Plus => Ok(a as int + b as int),
        TokenView::Minus => Ok(a as int - b as int),
        TokenView::Mult => Ok(a as int * b as int),
        TokenView::Div => if b == 0 {
            Err(CalcErrorView::DivisionByZero(a as int))
        } else {
            Ok(a as int / b as int)
        },
        TokenView::Modulo => if b == 0 {
            Err(CalcErrorView::DivisionByZero(a as int))
        } else {
            Ok(a as int % b as int)
        },
        TokenView::BitwiseAnd => Ok(int_and(a as int, b as int)),
        TokenView::BitwiseOr => Ok(int_or(a as int, b as int)),
        TokenView::BitwiseXor => Ok(int_xor(a as int, b as int)),
        TokenView::BitshiftLeft => if b > max_shift() {
            Err(CalcErrorView::InvalidBitShiftTooLarge(b as int))
        } else {
            Ok(a as int * pow(2, b))
        },
        _ => if b > max_shift() {
            Err(CalcErrorView::InvalidBitShiftTooLarge(b as int))
        } else {
            Ok(a as int / pow(2, b))
        },
    }
}

/// The tree of a number that stands alone, at the level of products.
pub open spec fn number_term(n: nat) -> TermView {
    TermView::Factor(FactorView::Number(n))
}

/// The tree of a number that stands alone, at the level of sums.
pub open spec fn number_expr(n: nat) -> ExprView {
    ExprView::Term(number_term(n))
}

/// The search for a split point passes over tokens that are neither an
/// operator of the level nor a `(`.
pub proof fn lemma_split_point_skips(
    tokens: Seq<TokenView>,
    from: int,
    until: int,
    level: Level,
)
    requires
        0 <= from <= until <= tokens.len(),
        forall|k: int|
            from <= k < until ==> !splits_at(level, #[trigger] tokens[k], k) && tokens[k]
                != TokenView::LeftPar,
    ensures
        split_point(tokens, from, level) == split_point(tokens, until, level),
    decreases until - from,
{
    if from < until {
        assert(!splits_at(level, tokens[from], from) && tokens[from] != TokenView::LeftPar);
        lemma_split_point_skips(tokens, from + 1, until, level);
    }
}

/// A slice that holds one number is parsed, at every level, as that number.
pub proof fn lemma_parse_number(n: nat)
    ensures
        parse_factor_spec(seq![TokenView::Number(n)]) == Ok::<FactorView, CalcErrorView>(
            FactorView::Number(n),
        ),
        parse_term_spec(seq![TokenView::Number(n)]) == Ok::<TermView, CalcErrorView>(
            number_term(n),
        ),
        parse_expr_spec(seq![TokenView::Number(n)]) == Ok::<ExprView, CalcErrorView>(
            number_expr(n),
        ),
        parse_bitwise_expr_spec(seq![TokenView::Number(n)]) == Ok::<
            ExprBitwiseView,
            CalcErrorView,
        >(ExprBitwiseView::Expr(number_expr(n))),
{
    let tokens = seq![TokenView::Number(n)];
    lemma_split_point_skips(tokens, 0, 1, Level::Bitwise);
    lemma_split_point_skips(tokens, 0, 1, Level::Additive);
    lemma_split_point_skips(tokens, 0, 1, Level::Multiplicative);
    assert(parse_factor_spec(tokens) == Ok::<FactorView, CalcErrorView>(FactorView::Number(n)));
    assert(parse_term_spec(tokens) == Ok::<TermView, CalcErrorView>(number_term(n)));
    assert(parse_expr_spec(tokens) == Ok::<ExprView, CalcErrorView>(number_expr(n)));
}

/// A number that stands alone has its own value, whatever the variables.
pub proof fn lemma_eval_number(n: nat, vars: Map<Seq<char>, int>)
    ensures
        eval_factor_spec(FactorView::Number(n), vars) == Ok::<int, CalcErrorView>(n as int),
        eval_term_spec(number_term(n), vars) == Ok::<int, CalcErrorView>(n as int),
        eval_expr_spec(number_expr(n), vars) == Ok::<int, CalcErrorView>(n as int),
        eval_expr_bitwise_spec(ExprBitwiseView::Expr(number_expr(n)), vars) == Ok::<
            int,
            CalcErrorView,
        >(n as int),
{
    assert(eval_term_spec(number_term(n), vars) == Ok::<int, CalcErrorView>(n as int));
    assert(eval_expr_spec(number_expr(n), vars) == Ok::<int, CalcErrorView>(n as int));
}

/// A line made of a number, one operator and a number is parsed, and its
/// value is the exact result of the operator on the two numbers, however
/// large they are. It fails only where the operator itself does: a division
/// or a remainder by zero, a shift by more than 65535.
pub proof fn law_single_operator(a: nat, op: TokenView, b: nat, vars: Map<Seq<char>, int>)
    requires
        is_binary_operator(op),
    ensures
        match parse_assignment_spec(seq![TokenView::Number(a), op, TokenView::Number(b)]) {
            Ok(tree) => eval_assignment_spec(tree, vars) == match binary_result(op, a, b) {
                Ok(value) => Ok::<(Seq<char>, int), CalcErrorView>((seq![RES_VAR], value)),
                Err(e) => Err(e),
            },
            Err(_) => false,
        },
{
    let tokens = seq![TokenView::Number(a), op, TokenView::Number(b)];
    let left = seq![TokenView::Number(a)];
    let right = seq![TokenView::Number(b)];
    assert(tokens.subrange(0, 1) =~= left);
    assert(tokens.subrange(2, 3) =~= right);
    lemma_parse_number(a);
    lemma_parse_number(b);
    lemma_eval_number(a, vars);
    lemma_eval_number(b, vars);
    if splits_at(Level::Bitwise, op, 1) {
        assert(split_point(tokens, 1, Level::Bitwise) == Ok::<Option<int>, CalcErrorView>(
            Some(1),
        ));
        assert(split_point(tokens, 0, Level::Bitwise) == Ok::<Option<int>, CalcErrorView>(
            Some(1),
        ));
        let node = bitwise_node(op, ExprBitwiseView::Expr(number_expr(a)), number_expr(b));
        assert(parse_bitwise_expr_spec(tokens) == Ok::<ExprBitwiseView, CalcErrorView>(node));
        assert(eval_expr_bitwise_spec(node, vars) == binary_result(op, a, b));
    } else {
        lemma_split_point_skips(tokens, 0, 3, Level::Bitwise);
        if splits_at(Level::Additive, op, 1) {
            assert(split_point(tokens, 1, Level::Additive) == Ok::<Option<int>, CalcErrorView>(
                Some(1),
            ));
            assert(split_point(tokens, 0, Level::Additive) == Ok::<Option<int>, CalcErrorView>(
                Some(1),
            ));
            let node = additive_node(op, number_expr(a), number_term(b));
            assert(parse_expr_spec(tokens) == Ok::<ExprView, CalcErrorView>(node));
            assert(parse_bitwise_expr_spec(tokens) == Ok::<ExprBitwiseView, CalcErrorView>(
                ExprBitwiseView::Expr(node),
            ));
            assert(eval_expr_spec(node, vars) == binary_result(op, a, b));
            assert(eval_expr_bitwise_spec(ExprBitwiseView::Expr(node), vars) == binary_result(
                op,
                a,
                b,
            ));
        } else {
            lemma_split_point_skips(tokens, 0, 3, Level::Additive);
            assert(split_point(tokens, 1, Level::Multiplicative) == Ok::<
                Option<int>,
                CalcErrorView,
            >(Some(1)));
            assert(split_point(tokens, 0, Level::Multiplicative) == Ok::<
                Option<int>,
                CalcErrorView,
            >(Some(1)));
            let node = multiplicative_node(op, number_term(a), FactorView::Number(b));
            assert(parse_term_spec(tokens) == Ok::<TermView, CalcErrorView>(node));
            assert(parse_expr_spec(tokens) == Ok::<ExprView, CalcErrorView>(ExprView::Term(node)));
            assert(parse_bitwise_expr_spec(tokens) == Ok::<ExprBitwiseView, CalcErrorView>(
                ExprBitwiseView::Expr(ExprView::Term(node)),
            ));
            if b != 0 {
                assert(truncating_div(a as int, b as int) == a as int / b as int);
                assert(truncating_rem(a as int, b as int) == a as int % b as int) by {
                    vstd::arithmetic::div_mod::lemma_fundamental_div_mod(a as int, b as int);
                }
            }
            assert(eval_term_spec(node, vars) == binary_result(op, a, b));
            assert(eval_expr_spec(ExprView::Term(node), vars) == binary_result(op, a, b));
            assert(eval_expr_bitwise_spec(ExprBitwiseView::Expr(ExprView::Term(node)), vars)
                == binary_result(op, a, b));
        }
    }
}

/// A known limit of the grammar: two operators of one level in a row,
/// without parentheses, are refused. The line is split at the first of them,
/// and what stands behind it goes to the next tighter level, which does not
/// know the second.
pub proof fn law_same_level_chain_refused(
    a: nat,
    first: TokenView,
    b: nat,
    second: TokenView,
    c: nat,
    level: Level,
)
    requires
        splits_at(level, first, 1),
        splits_at(level, second, 1),
    ensures
        parse_assignment_spec(
            seq![TokenView::Number(a), first, TokenView::Number(b), second, TokenView::Number(c)],
        ) == Err::<AssignView, CalcErrorView>(CalcErrorView::InvalidExpression),
{
    let tokens =
        seq![TokenView::Number(a), first, TokenView::Number(b), second, TokenView::Number(c)];
    let left = seq![TokenView::Number(a)];
    let right = seq![TokenView::Number(b), second, TokenView::Number(c)];
    let refused_factor = Err::<FactorView, CalcErrorView>(CalcErrorView::InvalidExpression);
    let refused_term = Err::<TermView, CalcErrorView>(CalcErrorView::InvalidExpression);
    let refused_expr = Err::<ExprView, CalcErrorView>(CalcErrorView::InvalidExpression);
    let refused = Err::<ExprBitwiseView, CalcErrorView>(CalcErrorView::InvalidExpression);
    assert(tokens.subrange(0, 1) =~= left);
    assert(tokens.subrange(2, 5) =~= right);
    lemma_parse_number(a);
    assert(parse_factor_spec(right) == refused_factor);
    assert(split_point(tokens, 1, level) == Ok::<Option<int>, CalcErrorView>(Some(1)));
    lemma_split_point_skips(tokens, 0, 1, level);
    match level {
        Level::Bitwise => {
            lemma_split_point_skips(right, 0, 3, Level::Multiplicative);
            assert(parse_term_spec(right) == refused_term);
            lemma_split_point_skips(right, 0, 3, Level::Additive);
            assert(parse_expr_spec(right) == refused_expr);
            assert(parse_bitwise_expr_spec(tokens) == refused);
        },
        Level::Additive => {
            lemma_split_point_skips(right, 0, 3, Level::Multiplicative);
            assert(parse_term_spec(right) == refused_term);
            assert(parse_expr_spec(tokens) == refused_expr);
            lemma_split_point_skips(tokens, 0, 5, Level::Bitwise);
            assert(parse_bitwise_expr_spec(tokens) == refused);
        },
        Level::Multiplicative => {
            assert(parse_term_spec(tokens) == refused_term);
            lemma_split_point_skips(tokens, 0, 5, Level::Additive);
            assert(parse_expr_spec(tokens) == refused_expr);
            lemma_split_point_skips(tokens, 0, 5, Level::Bitwise);
            assert(parse_bitwise_expr_spec(tokens) == refused);
        },
    }
}

/// A division or a remainder by the literal `0` fails, and the failure
/// carries the value of the dividend.
pub proof fn law_division_by_zero(dividend: TermView, vars: Map<Seq<char>, int>)
    requires
        eval_term_spec(dividend, vars) is Ok,
    ensures
        eval_term_spec(TermView::Div(Box::new(dividend), FactorView::Number(0)), vars) == Err::<
            int,
            CalcErrorView,
        >(CalcErrorView::DivisionByZero(eval_term_spec(dividend, vars)->Ok_0)),
        eval_term_spec(TermView::Modulo(Box::new(dividend), FactorView::Number(0)), vars) == Err::<
            int,
            CalcErrorView,
        >(CalcErrorView::DivisionByZero(eval_term_spec(dividend, vars)->Ok_0)),
{
    assert(eval_factor_spec(FactorView::Number(0), vars) == Ok::<int, CalcErrorView>(0));
}

/// A shift by more than 65535 fails with that amount, and a shift by a
/// negative amount fails as such, whatever stands on the left.
pub proof fn law_shift_amount(
    lhs: ExprBitwiseView,
    rhs: ExprView,
    amount: int,
    vars: Map<Seq<char>, int>,
)
    requires
        eval_expr_spec(rhs, vars) == Ok::<int, CalcErrorView>(amount),
    ensures
        amount > 65535 ==> eval_expr_bitwise_spec(
            ExprBitwiseView::BitshiftLeft(Box::new(lhs), rhs),
            vars,
        ) == Err::<int, CalcErrorView>(CalcErrorView::InvalidBitShiftTooLarge(amount))
            && eval_expr_bitwise_spec(ExprBitwiseView::BitshiftRight(Box::new(lhs), rhs), vars)
            == Err::<int, CalcErrorView>(CalcErrorView::InvalidBitShiftTooLarge(amount)),
        amount < 0 ==> eval_expr_bitwise_spec(
            ExprBitwiseView::BitshiftLeft(Box::new(lhs), rhs),
            vars,
        ) == Err::<int, CalcErrorView>(CalcErrorView::InvalidBitShiftNegative)
            && eval_expr_bitwise_spec(ExprBitwiseView::BitshiftRight(Box::new(lhs), rhs), vars)
            == Err::<int, CalcErrorView>(CalcErrorView::InvalidBitShiftNegative),
{
}

/// An expression alone binds the result variable and nothing else: every
/// other variable keeps its value, and none appears or disappears.
pub proof fn law_bare_expression_binds_result(
    e: ExprBitwiseView,
    vars: Map<Seq<char>, int>,
    other: Seq<char>,
)
    requires
        eval_expr_bitwise_spec(e, vars) is Ok,
        other != seq![RES_VAR],
    ensures
        eval_assignment_spec(AssignView::ExprBitwise(e), vars) matches Ok((name, value)) && name
            == seq![RES_VAR] && vars.insert(name, value).contains_key(other) == vars.contains_key(
            other,
        ) && (vars.contains_key(other) ==> vars.insert(name, value)[other] == vars[other]),
{
}

/// The variables after a line that succeeded: the ones before it, with the
/// name that the line binds mapped to its value.
pub open spec fn vars_after(ass: AssignView, vars: Map<Seq<char>, int>) -> Map<Seq<char>, int> {
    match eval_assignment_spec(ass, vars) {
        Ok((name, value)) => vars.insert(name, value),
        Err(_) => vars,
    }
}

/// Of two assignments to one name, made one after the other, the second
/// wins: the variables hold its value under that name, and are otherwise what
/// the first assignment left.
pub proof fn law_last_assignment_wins(
    name: Seq<char>,
    first: ExprBitwiseView,
    second: ExprBitwiseView,
    vars: Map<Seq<char>, int>,
)
    requires
        eval_expr_bitwise_spec(first, vars) is Ok,
        eval_expr_bitwise_spec(second, vars_after(AssignView::Assign(name, first), vars)) is Ok,
    ensures
        ({
            let between = vars_after(AssignView::Assign(name, first), vars);
            let after = vars_after(AssignView::Assign(name, second), between);
            &&& after[name] == eval_expr_bitwise_spec(second, between)->Ok_0
            &&& after == vars.insert(name, eval_expr_bitwise_spec(second, between)->Ok_0)
            &&& after.dom() == vars.dom().insert(name)
        }),
{
    let between = vars_after(AssignView::Assign(name, first), vars);
    let after = vars_after(AssignView::Assign(name, second), between);
    let v = eval_expr_bitwise_spec(second, between)->Ok_0;
    assert(after =~= vars.insert(name, v));
    assert(after.dom() =~= vars.dom().insert(name));
}

/// Whether no token is an identifier that is the name of a command.
pub open spec fn no_reserved_identifier(tokens: Seq<TokenView>) -> bool {
    forall|i: int|
        0 <= i < tokens.len() ==> match #[trigger] tokens[i] {
            TokenView::Variable(name) => !is_reserved(name),
            TokenView::Function(name) => !is_reserved(name),
            _ => true,
        }
}

/// What is scanned from any place of a line holds no reserved identifier.
pub proof fn lemma_scan_from_no_reserved(line: Seq<char>, pos: int)
    ensures
        scan_from(line, pos) matches Ok(tokens) ==> no_reserved_identifier(tokens),
    decreases line.len() - pos,
{
    if 0 <= pos < line.len() {
        lemma_scan_at_taken(line, pos);
        match scan_at(line, pos) {
            Scanned::Fail(_) => {},
            Scanned::Blank => {
                lemma_scan_from_no_reserved(line, pos + 1);
            },
            Scanned::Token(t, taken) => {
                lemma_scan_from_no_reserved(line, pos + taken);
                match scan_from(line, pos + taken) {
                    Ok(rest) => {
                        let tokens = seq![t] + rest;
                        assert forall|i: int| 0 <= i < tokens.len() implies match #[trigger] tokens[i] {
                            TokenView::Variable(name) => !is_reserved(name),
                            TokenView::Function(name) => !is_reserved(name),
                            _ => true,
                        } by {
                            if i > 0 {
                                assert(tokens[i] == rest[i - 1]);
                            }
                        }
                    },
                    Err(_) => {},
                }
            },
        }
    }
}

/// The name of a command is never lexed as an identifier: where lexing
/// succeeds, no variable and no function among the tokens has such a name.
pub proof fn law_reserved_names_rejected(line: Seq<char>)
    ensures
        lex(line) matches Ok(tokens) ==> no_reserved_identifier(tokens),
{
    lemma_scan_from_no_reserved(line, 0);
    match scan_from(line, 0) {
        Ok(scanned) => {
            let tokens = mark_functions(scanned);
            assert forall|i: int| 0 <= i < tokens.len() implies match #[trigger] tokens[i] {
                TokenView::Variable(name) => !is_reserved(name),
                TokenView::Function(name) => !is_reserved(name),
                _ => true,
            } by {
                assert(match scanned[i] {
                    TokenView::Variable(name) => !is_reserved(name),
                    TokenView::Function(name) => !is_reserved(name),
                    _ => true,
                });
            }
        },
        Err(_) => {},
    }
}

/// Every number that is not negative has a square root rounded down.
pub proof fn lemma_floor_sqrt_exists(v: int)
    requires
        v >= 0,
    ensures
        exists|root: int| is_floor_sqrt(v, root),
    decreases v,
{
    if v == 0 {
        assert(is_floor_sqrt(0, 0));
    } else {
        let w = v - 1;
        lemma_floor_sqrt_exists(w);
        let below = choose|root: int| is_floor_sqrt(w, root);
        if (below + 1) * (below + 1) <= v {
            assert((below + 2) * (below + 2) > (below + 1) * (below + 1)) by (nonlinear_arith)
                requires
                    below >= 0,
            ;
            assert(is_floor_sqrt(v, below + 1));
        } else {
            assert(is_floor_sqrt(v, below));
        }
    }
}

/// Arguments that all have a value have as many values as there are arguments.
pub proof fn lemma_arguments_len(arguments: Seq<ExprView>, vars: Map<Seq<char>, int>)
    ensures
        eval_arguments_spec(arguments, vars) matches Ok(values) ==> values.len()
            == arguments.len(),
    decreases arguments.len(),
{
    if arguments.len() > 0 {
        lemma_arguments_len(arguments.drop_last(), vars);
    }
}

/// A call of `sqrt` whose arguments all have a value: with any number of
/// arguments but one it fails and names 1 as the number expected; on one
/// negative argument it fails with a message; on any other argument it gives
/// the largest number whose square does not exceed the argument.
pub proof fn law_sqrt_call(arguments: Seq<ExprView>, vars: Map<Seq<char>, int>)
    requires
        eval_arguments_spec(arguments, vars) is Ok,
    ensures
        ({
            let values = eval_arguments_spec(arguments, vars)->Ok_0;
            let r = eval_factor_spec(FactorView::Function("sqrt"@, arguments), vars);
            &&& values.len() == arguments.len()
            &&& arguments.len() != 1 ==> r == Err::<int, CalcErrorView>(
                CalcErrorView::WrongArgumentCount("sqrt"@, 1, arguments.len() as int),
            )
            &&& arguments.len() == 1 && values[0] < 0 ==> r is Err
                && r->Err_0 is InvalidFunctionArgument
            &&& arguments.len() == 1 && values[0] >= 0 ==> r is Ok && is_floor_sqrt(
                values[0],
                r->Ok_0,
            )
        }),
{
    lemma_arguments_len(arguments, vars);
    let values = eval_arguments_spec(arguments, vars)->Ok_0;
    assert(function_of("sqrt"@) == Some(Function::Sqrt));
    assert(eval_factor_spec(FactorView::Function("sqrt"@, arguments), vars) == sqrt_spec(values));
    if arguments.len() == 1 && values[0] >= 0 {
        lemma_floor_sqrt_exists(values[0]);
    }
}

/// A call of `pow` whose arguments all have a value: with any number of
/// arguments but two it fails and names 2 as the number expected; on a
/// negative exponent it fails with a message; on an exponent in the range of
/// `u32` it gives the exact power.
pub proof fn law_pow_call(arguments: Seq<ExprView>, vars: Map<Seq<char>, int>)
    requires
        eval_arguments_spec(arguments, vars) is Ok,
    ensures
        ({
            let values = eval_arguments_spec(arguments, vars)->Ok_0;
            let r = eval_factor_spec(FactorView::Function("pow"@, arguments), vars);
            &&& values.len() == arguments.len()
            &&& arguments.len() != 2 ==> r == Err::<int, CalcErrorView>(
                CalcErrorView::WrongArgumentCount("pow"@, 2, arguments.len() as int),
            )
            &&& arguments.len() == 2 && values[1] < 0 ==> r is Err
                && r->Err_0 is InvalidFunctionArgument
            &&& arguments.len() == 2 && 0 <= values[1] <= u32::MAX ==> r == Ok::<
                int,
                CalcErrorView,
            >(pow(values[0], values[1] as nat))
        }),
{
    lemma_arguments_len(arguments, vars);
    let values = eval_arguments_spec(arguments, vars)->Ok_0;
    assert(function_of("pow"@) == Some(Function::Pow)) by {
        reveal_strlit("pow");
        reveal_strlit("sqrt");
        assert("pow"@.len() != "sqrt"@.len());
    }
    assert(eval_factor_spec(FactorView::Function("pow"@, arguments), vars) == pow_spec(values));
}

/// A run of letters and digits that reaches the end of the line is as long
/// as what is left of the line.
pub proof fn lemma_alphanumeric_run_full(line: Seq<char>, from: int)
    requires
        0 <= from <= line.len(),
        forall|i: int| from <= i < line.len() ==> alphanumeric(#[trigger] line[i]),
    ensures
        alphanumeric_run(line, from) == line.len() - from,
    decreases line.len() - from,
{
    if from < line.len() {
        lemma_alphanumeric_run_full(line, from + 1);
    }
}

/// A run of digits that reaches the end of the line is as long as what is
/// left of the line.
pub proof fn lemma_digit_run_full(line: Seq<char>, from: int)
    requires
        0 <= from <= line.len(),
        forall|i: int| from <= i < line.len() ==> ascii_digit(#[trigger] line[i]),
    ensures
        digit_run(line, from) == line.len() - from,
    decreases line.len() - from,
{
    if from < line.len() {
        lemma_digit_run_full(line, from + 1);
    }
}

/// A line that lexes to one number is an expression alone, and binds the
/// result variable to that number.
pub proof fn lemma_interpret_number(line: Seq<char>, n: nat, vars: Map<Seq<char>, int>)
    requires
        scan_from(line, 0) == Ok::<Seq<TokenView>, CalcErrorView>(seq![TokenView::Number(n)]),
    ensures
        interpret(line, vars) == Ok::<(Seq<char>, int), CalcErrorView>((seq![RES_VAR], n as int)),
{
    let tokens = seq![TokenView::Number(n)];
    assert(mark_functions(tokens) =~= tokens);
    lemma_parse_number(n);
    lemma_eval_number(n, vars);
}

/// A line made of `0x` or `0b` and digits of base 16 or 2 alone has the
/// value that the digits denote in that base, however many they are.
pub proof fn law_prefixed_literal(mark: char, digits: Seq<char>, vars: Map<Seq<char>, int>)
    requires
        mark == 'x' || mark == 'b',
        digits.len() > 0,
        all_digits(
            digits,
            if mark == 'x' {
                16
            } else {
                2
            },
        ),
    ensures
        interpret(seq!['0', mark] + digits, vars) == Ok::<(Seq<char>, int), CalcErrorView>(
            (
                seq![RES_VAR],
                digits_value(
                    digits,
                    if mark == 'x' {
                        16
                    } else {
                        2
                    },
                ) as int,
            ),
        ),
{
    let radix: nat = if mark == 'x' {
        16
    } else {
        2
    };
    let line = seq!['0', mark] + digits;
    assert forall|i: int| 2 <= i < line.len() implies alphanumeric(#[trigger] line[i]) by {
        assert(line[i] == digits[i - 2]);
        assert(digit_value(digits[i - 2]) < radix);
    }
    lemma_alphanumeric_run_full(line, 2);
    assert(line.subrange(2, line.len() as int) =~= digits);
    let value = digits_value(digits, radix);
    assert(scan_zero(line, 0) == Scanned::Token(TokenView::Number(value), line.len() as int));
    assert(scan_at(line, 0) == scan_zero(line, 0));
    assert(scan_from(line, line.len() as int) == Ok::<Seq<TokenView>, CalcErrorView>(
        Seq::empty(),
    ));
    assert(seq![TokenView::Number(value)] + Seq::<TokenView>::empty() =~= seq![
        TokenView::Number(value),
    ]);
    lemma_interpret_number(line, value, vars);
}

/// A line made of decimal digits alone, the first of them not `0`, has the
/// value that the digits denote, however many they are.
pub proof fn law_decimal_literal(digits: Seq<char>, vars: Map<Seq<char>, int>)
    requires
        digits.len() > 0,
        digits[0] != '0',
        forall|i: int| 0 <= i < digits.len() ==> ascii_digit(#[trigger] digits[i]),
    ensures
        interpret(digits, vars) == Ok::<(Seq<char>, int), CalcErrorView>(
            (seq![RES_VAR], digits_value(digits, 10) as int),
        ),
{
    lemma_digit_run_full(digits, 0);
    assert(digits.subrange(0, digits.len() as int) =~= digits);
    let value = digits_value(digits, 10);
    assert(ascii_digit(digits[0]));
    assert(scan_at(digits, 0) == Scanned::Token(TokenView::Number(value), digits.len() as int));
    assert(scan_from(digits, digits.len() as int) == Ok::<Seq<TokenView>, CalcErrorView>(
        Seq::empty(),
    ));
    assert(seq![TokenView::Number(value)] + Seq::<TokenView>::empty() =~= seq![
        TokenView::Number(value),
    ]);
    lemma_interpret_number(digits, value, vars);
}

/// Whether the text is a decimal literal: `0`, or digits of which the
/// first is not `0`.
pub open spec fn is_decimal_literal(text: Seq<char>) -> bool {
    &&& text.len() > 0
    &&& forall|i: int| 0 <= i < text.len() ==> ascii_digit(#[trigger] text[i])
    &&& text[0] == '0' ==> text.len() == 1
}

/// The characters that an operator is written with.
pub open spec fn operator_text(op: TokenView) -> Seq<char> {
    match op {
        TokenView::Plus => seq!['+'],
        TokenView::Minus => seq!['-'],
        TokenView::Mult => seq!['*'],
        TokenView::Div => seq!['/'],
        TokenView::Modulo => seq!['%'],
        TokenView::BitwiseAnd => seq!['&'],
        TokenView::BitwiseOr => seq!['|'],
        TokenView::BitwiseXor => seq!['^'],
        TokenView::BitshiftLeft => seq!['<', '<'],
        _ => seq!['>', '>'],
    }
}

/// A run of digits ends where the line ends or another character stands.
pub proof fn lemma_digit_run_until(line: Seq<char>, from: int, until: int)
    requires
        0 <= from <= until <= line.len(),
        forall|i: int| from <= i < until ==> ascii_digit(#[trigger] line[i]),
        until < line.len() ==> !ascii_digit(line[until]),
    ensures
        digit_run(line, from) == until - from,
    decreases until - from,
{
    if from < until {
        lemma_digit_run_until(line, from + 1, until);
    }
}

/// A decimal literal inside a line, with no letter or digit behind it, is
/// scanned as the number that it denotes.
pub proof fn lemma_scan_decimal(line: Seq<char>, pos: int, literal: Seq<char>)
    requires
        is_decimal_literal(literal),
        0 <= pos,
        pos + literal.len() <= line.len(),
        line.subrange(pos, pos + literal.len()) == literal,
        pos + literal.len() < line.len() ==> !ascii_alphanumeric(line[pos + literal.len()]),
    ensures
        scan_at(line, pos) == Scanned::Token(
            TokenView::Number(digits_value(literal, 10)),
            literal.len() as int,
        ),
{
    let until = pos + literal.len();
    assert forall|i: int| pos <= i < until implies ascii_digit(#[trigger] line[i]) by {
        assert(line[i] == literal[i - pos]);
    }
    assert(line[pos] == literal[0]);
    if literal[0] == '0' {
        assert(literal =~= seq!['0']);
        assert(digits_value(literal.drop_last(), 10) == 0);
        assert(digits_value(literal, 10) == 0);
        assert(scan_at(line, pos) == scan_zero(line, pos));
    } else {
        lemma_digit_run_until(line, pos, until);
    }
}

/// The text of a number, an operator and a number, written without blanks,
/// is lexed and parsed, and its value is the exact result of the operator on
/// the two numbers. It fails only where the operator itself does.
pub proof fn law_single_operator_line(
    left: Seq<char>,
    op: TokenView,
    right: Seq<char>,
    vars: Map<Seq<char>, int>,
)
    requires
        is_binary_operator(op),
        is_decimal_literal(left),
        is_decimal_literal(right),
    ensures
        interpret(left + operator_text(op) + right, vars) == match binary_result(
            op,
            digits_value(left, 10),
            digits_value(right, 10),
        ) {
            Ok(value) => Ok::<(Seq<char>, int), CalcErrorView>((seq![RES_VAR], value)),
            Err(e) => Err(e),
        },
{
    let sign = operator_text(op);
    let line = left + sign + right;
    let a = digits_value(left, 10);
    let b = digits_value(right, 10);
    let p1 = left.len() as int;
    let p2 = p1 + sign.len();
    let end = line.len() as int;
    assert(line.subrange(0, p1) =~= left);
    assert(line.subrange(p2, end) =~= right);
    assert(line[p1] == sign[0]);
    assert(sign.len() == 2 ==> line[p1 + 1] == sign[1]);
    lemma_scan_decimal(line, 0, left);
    lemma_scan_decimal(line, p2, right);
    assert(scan_at(line, p1) == Scanned::Token(op, sign.len() as int));
    assert(scan_from(line, end) == Ok::<Seq<TokenView>, CalcErrorView>(Seq::empty()));
    let last = seq![TokenView::Number(b)];
    assert(last + Seq::<TokenView>::empty() =~= last);
    assert(scan_from(line, p2) == Ok::<Seq<TokenView>, CalcErrorView>(last));
    assert(seq![op] + last =~= seq![op, TokenView::Number(b)]);
    assert(scan_from(line, p1) == Ok::<Seq<TokenView>, CalcErrorView>(
        seq![op, TokenView::Number(b)],
    ));
    let tokens = seq![TokenView::Number(a), op, TokenView::Number(b)];
    assert(seq![TokenView::Number(a)] + seq![op, TokenView::Number(b)] =~= tokens);
    assert(scan_from(line, 0) == Ok::<Seq<TokenView>, CalcErrorView>(tokens));
    assert(mark_functions(tokens) =~= tokens);
    law_single_operator(a, op, b, vars);
}

} // verus!
