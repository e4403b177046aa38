//! The functions that an expression can call.

use crate::chars::same_text;
use crate::error::{CalcError, CalcErrorView};
use crate::number::{
    decimal_text, integer_is_negative, integer_pow, integer_sqrt, integer_to_decimal,
    integer_to_u32, is_floor_sqrt, Integer,
};
use vstd::arithmetic::power::pow;
use vstd::prelude::*;
use vstd::string::*;

verus! {

/// A function of the table.
#[derive(Debug, Clone, Copy, PartialEq, Eq, Structural)]
pub enum Function {
    /// `sqrt`, of one argument: the integer square root, rounded down.
    Sqrt,
    /// `pow`, of two arguments: the first to the power of the second.
    Pow,
}

/// The function that a name stands for, if it stands for one.
pub open spec fn function_of(name: Seq<char>) -> Option<Function> {
    if name == "sqrt"@ {
        Some(Function::Sqrt)
    } else if name == "pow"@ {
        Some(Function::Pow)
    } else {
        None
    }
}

/// The square root of a number that is not negative, rounded down.
pub open spec fn floor_sqrt(v: int) -> int {
    choose|root: int| is_floor_sqrt(v, root)
}

/// No number has two square roots rounded down.
pub proof fn lemma_floor_sqrt_unique(v: int, a: int, b: int)
    requires
        is_floor_sqrt(v, a),
        is_floor_sqrt(v, b),
    ensures
        a == b,
{
    if a < b {
        assert((a + 1) * (a + 1) <= b * b) by (nonlinear_arith)
            requires
                0 <= a,
                a + 1 <= b,
        ;
    }
    if b < a {
        assert((b + 1) * (b + 1) <= a * a) by (nonlinear_arith)
            requires
                0 <= b,
                b + 1 <= a,
        ;
    }
}

/// What `sqrt` makes of its arguments.
pub open spec fn sqrt_spec(inputs: Seq<int>) -> Result<int, CalcErrorView> {
    if inputs.len() != 1 {
        Err(CalcErrorView::WrongArgumentCount("sqrt"@, 1, inputs.len() as int))
    } else if inputs[0] < 0 {
        Err(
            CalcErrorView::InvalidFunctionArgument(
                "sqrt function does not take negative argument. Passed "@ + decimal_text(inputs[0]),
            ),
        )
    } else {
        Ok(floor_sqrt(inputs[0]))
    }
}

/// What `pow` makes of its arguments: the exponent must lie in the range of `u32`.
pub open spec fn pow_spec(inputs: Seq<int>) -> Result<int, CalcErrorView> {
    if inputs.len() != 2 {
        Err(CalcErrorView::WrongArgumentCount("pow"@, 2, inputs.len() as int))
    } else if inputs[1] < 0 || inputs[1] > u32::MAX {
        Err(
            CalcErrorView::InvalidFunctionArgument(
                "Exponent of the pow function cannot be negative. Passed "@ + decimal_text(
                    inputs[1],
                ),
            ),
        )
    } else {
        Ok(pow(inputs[0], inputs[1] as nat))
    }
}

/// What a function of the table makes of its arguments.
pub open spec fn apply_spec(f: Function, inputs: Seq<int>) -> Result<int, CalcErrorView> {
    match f {
        Function::Sqrt => sqrt_spec(inputs),
        Function::Pow => pow_spec(inputs),
    }
}

/// The values of a list of numbers.
pub open spec fn values_of(numbers: Seq<Integer>) -> Seq<int> {
    Seq::new(numbers.len(), |i: int| numbers[i]@)
}

/// The outcome of an evaluation, as mathematics.
pub open spec fn evaluated_view(r: Result<Integer, CalcError>) -> Result<int, CalcErrorView> {
    match r {
        Ok(value) => Ok(value@),
        Err(e) => Err(e@),
    }
}

/// The name of a function of the table.
pub open spec fn name_of(f: Function) -> Seq<char> {
    match f {
        Function::Sqrt => "sqrt"@,
        Function::Pow => "pow"@,
    }
}

/// The number of arguments that a function of the table takes.
pub open spec fn arity_of(f: Function) -> nat {
    match f {
        Function::Sqrt => 1,
        Function::Pow => 2,
    }
}

/// A function that is given another number of arguments than it takes
/// fails, whatever the arguments are, and the failure holds its name, the
/// number that it takes and the number that it was given.
pub proof fn law_wrong_argument_count(f: Function, inputs: Seq<int>)
    requires
        inputs.len() != arity_of(f),
    ensures
        apply_spec(f, inputs) == Err::<int, CalcErrorView>(
            CalcErrorView::WrongArgumentCount(name_of(f), arity_of(f) as int, inputs.len() as int),
        ),
{
}

impl Function {
    /// The name under which the function is called.
    pub fn name(self) -> (name: &'static str)
        ensures
            name@ == name_of(self),
    {
        match self {
            Function::Sqrt => "sqrt",
            Function::Pow => "pow",
        }
    }

    /// The number of arguments that the function takes.
    pub fn arity(self) -> (n: usize)
        ensures
            n == arity_of(self),
    {
        match self {
            Function::Sqrt => 1,
            Function::Pow => 2,
        }
    }

    /// Applies the function to its arguments.
    pub fn apply(self, inputs: &[Integer]) -> (r: Result<Integer, CalcError>)
        ensures
            evaluated_view(r) == apply_spec(self, values_of(inputs@)),
    {
        match self {
            Function::Sqrt => sqrt_func(inputs),
            Function::Pow => pow_func(inputs),
        }
    }
}

/// Looks a name up in the table of functions. The match is exact.
pub fn lookup_function(name: &str) -> (r: Option<Function>)
    ensures
        r == function_of(name@),
{
    if same_text(name, "sqrt") {
        Some(Function::Sqrt)
    } else if same_text(name, "pow") {
        Some(Function::Pow)
    } else {
        None
    }
}

/// The square root of the one argument, rounded down. A negative argument
/// is refused, and so is any other number of arguments.
pub fn sqrt_func(inputs: &[Integer]) -> (r: Result<Integer, CalcError>)
    ensures
        evaluated_view(r) == sqrt_spec(values_of(inputs@)),
{
    if inputs.len() != 1 {
        return Err(CalcError::WrongArgumentCount(String::from_str("sqrt"), 1, inputs.len()));
    }
    let num = &inputs[0];
    if integer_is_negative(num) {
        let mut message = String::from_str(
            "sqrt function does not take negative argument. Passed ",
        );
        message.append(integer_to_decimal(num).as_str());
        return Err(CalcError::InvalidFunctionArgument(message));
    }
    let root = integer_sqrt(num);
    proof {
        lemma_floor_sqrt_unique(num@, root@, floor_sqrt(num@));
    }
    Ok(root)
}

/// The first argument to the power of the second. An exponent outside the
/// range of `u32` is refused, and so is any other number of arguments.
pub fn pow_func(inputs: &[Integer]) -> (r: Result<Integer, CalcError>)
    ensures
        evaluated_view(r) == pow_spec(values_of(inputs@)),
{
    if inputs.len() != 2 {
        return Err(CalcError::WrongArgumentCount(String::from_str("pow"), 2, inputs.len()));
    }
    let base = &inputs[0];
    let exponent = &inputs[1];
    match integer_to_u32(exponent) {
        Some(e) => Ok(integer_pow(base, e)),
        None => {
            let mut message = String::from_str(
                "Exponent of the pow function cannot be negative. Passed ",
            );
            message.append(integer_to_decimal(exponent).as_str());
            Err(CalcError::InvalidFunctionArgument(message))
        },
    }
}

} // verus!
