//! The evaluator: from an expression tree and the variables to a value.

use crate::error::{CalcError, CalcErrorView};
use crate::functions::{
    apply_spec, evaluated_view, function_of, lookup_function, values_of, Function,
};
use crate::number::{
    int_and, int_or, int_xor, integer_add, integer_bitand, integer_bitor, integer_bitxor,
    integer_checked_div, integer_from_natural, integer_is_negative, integer_is_zero, integer_mul,
    integer_neg, integer_rem, integer_shl, integer_shr, integer_sub, integer_to_u16,
    truncating_div, truncating_rem, Integer,
};
use crate::parser::{
    result_name, Assign, AssignView, Expr, ExprBitwise, ExprBitwiseView, ExprView, Factor,
    FactorView, Term, TermView,
};
use crate::store::VariableStore;
use crate::parser::RES_VAR;
use vstd::arithmetic::power::pow;
use vstd::prelude::*;

verus! {

/// The largest amount by which a number can be shifted.
pub open spec fn max_shift() -> int {
    u16::MAX as int
}

/// The amount of a shift, or the reason for which `amount` cannot be one.
pub open spec fn shift_amount(amount: int) -> Result<nat, CalcErrorView> {
    if amount < 0 {
        Err(CalcErrorView::InvalidBitShiftNegative)
    } else if amount > max_shift() {
        Err(CalcErrorView::InvalidBitShiftTooLarge(amount))
    } else {
        Ok(amount as nat)
    }
}

/// The value of a tree of the loosest level.
///
/// Of a bitwise operator the left side is evaluated first. Of a shift the
/// right side is evaluated and judged first, and only then the left side.
pub open spec fn eval_expr_bitwise_spec(e: ExprBitwiseView, vars: Map<Seq<char>, int>) -> Result<
    int,
    CalcErrorView,
>
    decreases e,
{
    match e {
        ExprBitwiseView::BitwiseOr(l, r) => match eval_expr_bitwise_spec(*l, vars) {
            Err(e) => Err(e),
            Ok(a) => match eval_expr_spec(r, vars) {
                Err(e) => Err(e),
                Ok(b) => Ok(int_or(a, b)),
            },
        },
        ExprBitwiseView::BitwiseAnd(l, r) => match eval_expr_bitwise_spec(*l, vars) {
            Err(e) => Err(e),
            Ok(a) => match eval_expr_spec(r, vars) {
                Err(e) => Err(e),
                Ok(b) => Ok(int_and(a, b)),
            },
        },
        ExprBitwiseView::BitwiseXor(l, r) => match eval_expr_bitwise_spec(*l, vars) {
            Err(e) => Err(e),
            Ok(a) => match eval_expr_spec(r, vars) {
                Err(e) => Err(e),
                Ok(b) => Ok(int_xor(a, b)),
            },
        },
        ExprBitwiseView::BitshiftLeft(l, r) => match eval_expr_spec(r, vars) {
            Err(e) => Err(e),
            Ok(b) => match shift_amount(b) {
                Err(e) => Err(e),
                Ok(amount) => match eval_expr_bitwise_spec(*l, vars) {
                    Err(e) => Err(e),
                    Ok(a) => Ok(a * pow(2, amount)),
                },
            },
        },
        ExprBitwiseView::BitshiftRight(l, r) => match eval_expr_spec(r, vars) {
            Err(e) => Err(e),
            Ok(b) => match shift_amount(b) {
                Err(e) => Err(e),
                Ok(amount) => match eval_expr_bitwise_spec(*l, vars) {
                    Err(e) => Err(e),
                    Ok(a) => Ok(a / pow(2, amount)),
                },
            },
        },
        ExprBitwiseView::Expr(e) => eval_expr_spec(e, vars),
    }
}

/// The value of a tree of the level of sums.
pub open spec fn eval_expr_spec(e: ExprView, vars: Map<Seq<char>, int>) -> Result<
    int,
    CalcErrorView,
>
    decreases e,
{
    match e {
        ExprView::Sum(l, r) => match eval_expr_spec(*l, vars) {
            Err(e) => Err(e),
            Ok(a) => match eval_term_spec(r, vars) {
                Err(e) => Err(e),
                Ok(b) => Ok(a + b),
            },
        },
        ExprView::Subtract(l, r) => match eval_expr_spec(*l, vars) {
            Err(e) => Err(e),
            Ok(a) => match eval_term_spec(r, vars) {
                Err(e) => Err(e),
                Ok(b) => Ok(a - b),
            },
        },
        ExprView::Term(t) => eval_term_spec(t, vars),
        ExprView::Negative(e) => match eval_expr_spec(*e, vars) {
            Err(e) => Err(e),
            Ok(a) => Ok(-a),
        },
    }
}

/// The value of a tree of the level of products. A division and a
/// remainder round toward zero, and fail on a zero divisor with the dividend.
pub open spec fn eval_term_spec(t: TermView, vars: Map<Seq<char>, int>) -> Result<
    int,
    CalcErrorView,
>
    decreases t,
{
    match t {
        TermView::Mult(l, r) => match eval_term_spec(*l, vars) {
            Err(e) => Err(e),
            Ok(a) => match eval_factor_spec(r, vars) {
                Err(e) => Err(e),
                Ok(b) => Ok(a * b),
            },
        },
        TermView::Div(l, r) => match eval_term_spec(*l, vars) {
            Err(e) => Err(e),
            Ok(a) => match eval_factor_spec(r, vars) {
                Err(e) => Err(e),
                Ok(b) => if b == 0 {
                    Err(CalcErrorView::DivisionByZero(a))
                } else {
                    Ok(truncating_div(a, b))
                },
            },
        },
        TermView::Modulo(l, r) => match eval_term_spec(*l, vars) {
            Err(e) => Err(e),
            Ok(a) => match eval_factor_spec(r, vars) {
                Err(e) => Err(e),
                Ok(b) => if b == 0 {
                    Err(CalcErrorView::DivisionByZero(a))
                } else {
                    Ok(truncating_rem(a, b))
                },
            },
        },
        TermView::Factor(f) => eval_factor_spec(f, vars),
    }
}

/// The value of a tree of the tightest level.
///
/// The name of a function is looked up before any argument is evaluated.
pub open spec fn eval_factor_spec(f: FactorView, vars: Map<Seq<char>, int>) -> Result<
    int,
    CalcErrorView,
>
    decreases f,
{
    match f {
        FactorView::Number(n) => Ok(n as int),
        FactorView::Variable(name) => if vars.contains_key(name) {
            Ok(vars[name])
        } else {
            Err(CalcErrorView::UnknownVariable(name))
        },
        FactorView::Parenthesis(e) => eval_expr_spec(*e, vars),
        FactorView::Function(name, arguments) => match function_of(name) {
            None => Err(CalcErrorView::UnknownFunction(name)),
            Some(function) => match eval_arguments_spec(arguments, vars) {
                Err(e) => Err(e),
                Ok(values) => apply_spec(function, values),
            },
        },
    }
}

/// The values of the arguments of a call, from left to right, or the
/// failure of the first argument that has no value.
pub open spec fn eval_arguments_spec(arguments: Seq<ExprView>, vars: Map<Seq<char>, int>) -> Result<
    Seq<int>,
    CalcErrorView,
>
    decreases arguments,
{
    if arguments.len() == 0 {
        Ok(Seq::empty())
    } else {
        match eval_arguments_spec(arguments.drop_last(), vars) {
            Err(e) => Err(e),
            Ok(values) => match eval_expr_spec(arguments.last(), vars) {
                Err(e) => Err(e),
                Ok(v) => Ok(values.push(v)),
            },
        }
    }
}

/// What a line does: the name that it binds and the value that it binds it
/// to. An expression alone binds the result variable.
pub open spec fn eval_assignment_spec(ass: AssignView, vars: Map<Seq<char>, int>) -> Result<
    (Seq<char>, int),
    CalcErrorView,
> {
    match ass {
        AssignView::Assign(name, e) => match eval_expr_bitwise_spec(e, vars) {
            Err(e) => Err(e),
            Ok(v) => Ok((name, v)),
        },
        AssignView::ExprBitwise(e) => match eval_expr_bitwise_spec(e, vars) {
            Err(e) => Err(e),
            Ok(v) => Ok((seq![RES_VAR], v)),
        },
    }
}

/// The failure of an argument is the failure of the whole list, whatever
/// follows that argument.
pub proof fn lemma_arguments_fail_early(
    arguments: Seq<ExprView>,
    k: int,
    vars: Map<Seq<char>, int>,
)
    requires
        0 <= k <= arguments.len(),
        eval_arguments_spec(arguments.subrange(0, k), vars).is_err(),
    ensures
        eval_arguments_spec(arguments, vars) == eval_arguments_spec(arguments.subrange(0, k), vars),
    decreases arguments.len(),
{
    if k == arguments.len() {
        assert(arguments.subrange(0, k) =~= arguments);
    } else {
        assert(arguments.drop_last().subrange(0, k) =~= arguments.subrange(0, k));
        lemma_arguments_fail_early(arguments.drop_last(), k, vars);
    }
}

/// Judges the right side of a shift: it must lie in the range of `u16`.
fn shift_amount_of(amount: Integer) -> (r: Result<u16, CalcError>)
    ensures
        match r {
            Ok(n) => shift_amount(amount@) == Ok::<nat, CalcErrorView>(n as nat),
            Err(e) => shift_amount(amount@) == Err::<nat, CalcErrorView>(e@),
        },
{
    if integer_is_negative(&amount) {
        return Err(CalcError::InvalidBitShiftNegative);
    }
    match integer_to_u16(&amount) {
        Some(n) => Ok(n),
        None => Err(CalcError::InvalidBitShiftTooLarge(amount)),
    }
}

/// Evaluates a tree of the loosest level.
pub fn eval_expr_bitwise(e: &ExprBitwise, variables: &VariableStore) -> (r: Result<
    Integer,
    CalcError,
>)
    ensures
        evaluated_view(r) == eval_expr_bitwise_spec(e@, variables@),
    decreases e,
{
    match e {
        ExprBitwise::BitwiseOr(l, r) => {
            let a = match eval_expr_bitwise(l, variables) {
                Ok(a) => a,
                Err(e) => {
                    return Err(e);
                },
            };
            match eval_expr(r, variables) {
                Ok(b) => Ok(integer_bitor(&a, &b)),
                Err(e) => Err(e),
            }
        },
        ExprBitwise::BitwiseAnd(l, r) => {
            let a = match eval_expr_bitwise(l, variables) {
                Ok(a) => a,
                Err(e) => {
                    return Err(e);
                },
            };
            match eval_expr(r, variables) {
                Ok(b) => Ok(integer_bitand(&a, &b)),
                Err(e) => Err(e),
            }
        },
        ExprBitwise::BitwiseXor(l, r) => {
            let a = match eval_expr_bitwise(l, variables) {
                Ok(a) => a,
                Err(e) => {
                    return Err(e);
                },
            };
            match eval_expr(r, variables) {
                Ok(b) => Ok(integer_bitxor(&a, &b)),
                Err(e) => Err(e),
            }
        },
        ExprBitwise::BitshiftLeft(l, r) => {
            let b = match eval_expr(r, variables) {
                Ok(b) => b,
                Err(e) => {
                    return Err(e);
                },
            };
            let amount = match shift_amount_of(b) {
                Ok(amount) => amount,
                Err(e) => {
                    return Err(e);
                },
            };
            match eval_expr_bitwise(l, variables) {
                Ok(a) => Ok(integer_shl(&a, amount)),
                Err(e) => Err(e),
            }
        },
        ExprBitwise::BitshiftRight(l, r) => {
            let b = match eval_expr(r, variables) {
                Ok(b) => b,
                Err(e) => {
                    return Err(e);
                },
            };
            let amount = match shift_amount_of(b) {
                Ok(amount) => amount,
                Err(e) => {
                    return Err(e);
                },
            };
            match eval_expr_bitwise(l, variables) {
                Ok(a) => Ok(integer_shr(&a, amount)),
                Err(e) => Err(e),
            }
        },
        ExprBitwise::Expr(e) => eval_expr(e, variables),
    }
}

/// Evaluates a tree of the level of sums.
pub fn eval_expr(e: &Expr, variables: &VariableStore) -> (r: Result<Integer, CalcError>)
    ensures
        evaluated_view(r) == eval_expr_spec(e@, variables@),
    decreases e,
{
    match e {
        Expr::Sum(l, r) => {
            let a = match eval_expr(l, variables) {
                Ok(a) => a,
                Err(e) => {
                    return Err(e);
                },
            };
            match eval_term(r, variables) {
                Ok(b) => Ok(integer_add(&a, &b)),
                Err(e) => Err(e),
            }
        },
        Expr::Subtract(l, r) => {
            let a = match eval_expr(l, variables) {
                Ok(a) => a,
                Err(e) => {
                    return Err(e);
                },
            };
            match eval_term(r, variables) {
                Ok(b) => Ok(integer_sub(&a, &b)),
                Err(e) => Err(e),
            }
        },
        Expr::Term(t) => eval_term(t, variables),
        Expr::Negative(e) => match eval_expr(e, variables) {
            Ok(a) => Ok(integer_neg(&a)),
            Err(e) => Err(e),
        },
    }
}

/// Evaluates a tree of the level of products.
pub fn eval_term(t: &Term, variables: &VariableStore) -> (r: Result<Integer, CalcError>)
    ensures
        evaluated_view(r) == eval_term_spec(t@, variables@),
    decreases t,
{
    match t {
        Term::Mult(l, r) => {
            let a = match eval_term(l, variables) {
                Ok(a) => a,
                Err(e) => {
                    return Err(e);
                },
            };
            match eval_factor(r, variables) {
                Ok(b) => Ok(integer_mul(&a, &b)),
                Err(e) => Err(e),
            }
        },
        Term::Div(l, r) => {
            let a = match eval_term(l, variables) {
                Ok(a) => a,
                Err(e) => {
                    return Err(e);
                },
            };
            match eval_factor(r, variables) {
                Ok(b) => match integer_checked_div(&a, &b) {
                    Some(q) => Ok(q),
                    None => Err(CalcError::DivisionByZero(a)),
                },
                Err(e) => Err(e),
            }
        },
        Term::Modulo(l, r) => {
            let a = match eval_term(l, variables) {
                Ok(a) => a,
                Err(e) => {
                    return Err(e);
                },
            };
            match eval_factor(r, variables) {
                Ok(b) => if integer_is_zero(&b) {
                    Err(CalcError::DivisionByZero(a))
                } else {
                    Ok(integer_rem(&a, &b))
                },
                Err(e) => Err(e),
            }
        },
        Term::Factor(f) => eval_factor(f, variables),
    }
}

/// Evaluates a tree of the tightest level.
pub fn eval_factor(f: &Factor, variables: &VariableStore) -> (r: Result<Integer, CalcError>)
    ensures
        evaluated_view(r) == eval_factor_spec(f@, variables@),
    decreases f,
{
    match f {
        Factor::Number(n) => Ok(integer_from_natural(n)),
        Factor::Parenthesis(e) => eval_expr(e, variables),
        Factor::Variable(name) => match variables.get(name.as_str()) {
            Some(value) => Ok(value.clone()),
            None => Err(CalcError::UnknownVariable(name.clone())),
        },
        Factor::Function(name, arguments) => {
            let function = match lookup_function(name.as_str()) {
                Some(function) => function,
                None => {
                    return Err(CalcError::UnknownFunction(name.clone()));
                },
            };
            let ghost trees = f@->Function_1;
            let mut values: Vec<Integer> = Vec::new();
            let mut i: usize = 0;
            assert(trees.subrange(0, 0) =~= Seq::empty());
            assert(values_of(values@) =~= Seq::empty());
            while i < arguments.len()
                invariant
                    i <= arguments@.len(),
                    f@ == FactorView::Function(name@, trees),
                    *f == Factor::Function(*name, *arguments),
                    function_of(name@) == Some(function),
                    trees.len() == arguments@.len(),
                    forall|k: int| 0 <= k < trees.len() ==> trees[k] == (#[trigger] arguments@[k])@,
                    eval_arguments_spec(trees.subrange(0, i as int), variables@) == Ok::<
                        Seq<int>,
                        CalcErrorView,
                    >(values_of(values@)),
                decreases arguments@.len() - i,
            {
                let ghost so_far = values_of(values@);
                assert(trees.subrange(0, i + 1).drop_last() =~= trees.subrange(0, i as int));
                assert(trees.subrange(0, i + 1).last() == arguments@[i as int]@);
                match eval_expr(&arguments[i], variables) {
                    Ok(v) => {
                        values.push(v);
                        assert(values_of(values@) =~= so_far.push(v@));
                    },
                    Err(e) => {
                        proof {
                            assert(eval_arguments_spec(trees.subrange(0, i + 1), variables@)
                                == Err::<Seq<int>, CalcErrorView>(e@));
                            lemma_arguments_fail_early(trees, i + 1, variables@);
                        }
                        return Err(e);
                    },
                }
                i += 1;
            }
            assert(trees.subrange(0, i as int) =~= trees);
            function.apply(values.as_slice())
        },
    }
}

/// Evaluates a line and binds its value: to the name on the left of an
/// assignment, or to the result variable where the line is an expression
/// alone. Returns the name that was bound.
///
/// Where the evaluation fails, the variables stay as they were.
pub fn eval_assignment(ass: Assign, variables: &mut VariableStore) -> (r: Result<String, CalcError>)
    ensures
        match eval_assignment_spec(ass@, old(variables)@) {
            Ok((name, value)) => r matches Ok(bound) && bound@ == name
                && final(variables)@ == old(variables)@.insert(name, value),
            Err(e) => r matches Err(err) && err@ == e && final(variables)@ == old(variables)@,
        },
{
    match ass {
        Assign::Assign(name, e) => {
            let value = match eval_expr_bitwise(&e, variables) {
                Ok(value) => value,
                Err(e) => {
                    return Err(e);
                },
            };
            variables.insert(name.clone(), value);
            Ok(name)
        },
        Assign::ExprBitwise(e) => {
            let value = match eval_expr_bitwise(&e, variables) {
                Ok(value) => value,
                Err(e) => {
                    return Err(e);
                },
            };
            variables.insert(result_name(), value);
            Ok(result_name())
        },
    }
}

} // verus!
