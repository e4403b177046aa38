use bigcalc::error::CalcError;
use bigcalc::evaluator::{
    eval_assignment, eval_expr, eval_expr_bitwise, eval_factor, eval_term,
};
use bigcalc::number::{Integer, Natural};
use bigcalc::parser::{Assign, Expr, ExprBitwise, Factor, Term, RES_VAR};
use bigcalc::store::VariableStore;

fn lit(v: u64) -> Factor {
    Factor::Number(Natural::from_u64(v))
}

fn store_with(name: &str, value: i64) -> VariableStore {
    let mut vars = VariableStore::new();
    vars.insert(String::from(name), Integer::from_i64(value));
    vars
}

#[test]
fn test_evaluation_paranthesis() {
    assert_eq!(
        eval_expr(
            &Expr::Term(Term::Factor(Factor::Parenthesis(Box::from(Expr::Term(
                Term::Div(Box::from(Term::Factor(lit(120))), lit(24),),
            ))))),
            &VariableStore::new()
        ),
        Ok(Integer::from_i64(5))
    )
}

#[test]
fn test_evaluation_div_by_zero() {
    assert_eq!(
        eval_expr(
            &Expr::Term(Term::Div(Box::from(Term::Factor(lit(120))), lit(0),)),
            &VariableStore::new()
        ),
        Err(CalcError::DivisionByZero(Integer::from_i64(120)))
    )
}

#[test]
fn test_evaluation_negative() {
    assert_eq!(
        eval_expr(
            &Expr::Negative(Box::new(Expr::Term(Term::Factor(lit(120))))),
            &VariableStore::new()
        ),
        Ok(Integer::from_i64(-120))
    )
}

#[test]
fn test_evaluation_assignment() {
    let mut vars = VariableStore::new();
    assert_eq!(
        eval_assignment(
            Assign::Assign(
                String::from("asd"),
                ExprBitwise::Expr(Expr::Term(Term::Factor(lit(123)))),
            ),
            &mut vars,
        ),
        Ok(String::from("asd"))
    );
    assert_eq!(vars.get("asd"), Some(&Integer::from_i64(123)));
}

#[test]
fn test_evaluation_variable() {
    let vars = store_with("asd", 123);

    assert_eq!(
        eval_factor(&Factor::Variable(String::from("asd")), &vars),
        Ok(Integer::from_i64(123))
    )
}

#[test]
fn test_evaluation_assign_twice() {
    let mut vars = store_with("asd", 123);

    assert_eq!(
        eval_assignment(
            Assign::Assign(
                String::from("asd"),
                ExprBitwise::Expr(Expr::Term(Term::Factor(lit(10)))),
            ),
            &mut vars,
        ),
        Ok(String::from("asd"))
    );
    assert_eq!(vars.get("asd"), Some(&Integer::from_i64(10)));
}

#[test]
fn test_evaluation_res_variable_assign() {
    // Must assign an expression result in the special variable
    let mut vars = VariableStore::new();

    eval_assignment(
        Assign::ExprBitwise(ExprBitwise::Expr(Expr::Term(Term::Factor(lit(120))))),
        &mut vars,
    )
    .unwrap();

    assert_eq!(
        vars.get(&RES_VAR.to_string()),
        Some(&Integer::from_i64(120))
    );
}

#[test]
fn test_evaluation_modulo() {
    assert_eq!(
        eval_term(
            &Term::Modulo(Box::from(Term::Factor(lit(120))), lit(17),),
            &VariableStore::new()
        ),
        Ok(Integer::from_i64(1))
    )
}

#[test]
fn test_evaluation_shift_large() {
    assert_eq!(
        eval_expr_bitwise(
            &ExprBitwise::BitshiftRight(
                Box::new(ExprBitwise::Expr(Expr::Term(Term::Factor(lit(1))))),
                Expr::Term(Term::Factor(lit(u16::MAX as u64 + 1)))
            ),
            &VariableStore::new()
        ),
        Err(CalcError::InvalidBitShiftTooLarge(Integer::from_i64(
            u16::MAX as i64 + 1
        )))
    );
}

#[test]
fn test_evaluation_shift_negative() {
    assert_eq!(
        eval_expr_bitwise(
            &ExprBitwise::BitshiftRight(
                Box::new(ExprBitwise::Expr(Expr::Term(Term::Factor(lit(1))))),
                Expr::Negative(Box::new(Expr::Term(Term::Factor(lit(1))))),
            ),
            &VariableStore::new(),
        ),
        Err(CalcError::InvalidBitShiftNegative)
    );
}

#[test]
fn test_evaluation_function() {
    assert_eq!(
        eval_factor(
            &Factor::Function(
                "sqrt".to_string(),
                vec![Expr::Term(Term::Factor(lit(16)))]
            ),
            &VariableStore::new()
        ),
        Ok(Integer::from_i64(4))
    )
}

#[test]
fn test_evaluation_function_wrong_arguments() {
    assert!(eval_factor(
        &Factor::Function(
            "sqrt".to_string(),
            vec![Expr::Negative(Box::new(Expr::Term(Term::Factor(lit(16)))))]
        ),
        &VariableStore::new()
    )
    .is_err());
}

#[test]
fn test_evaluation_function_multiple_argument() {
    assert_eq!(
        eval_factor(
            &Factor::Function(
                "pow".to_string(),
                vec![
                    Expr::Negative(Box::new(Expr::Term(Term::Factor(lit(16))))),
                    Expr::Term(Term::Factor(lit(2)))
                ]
            ),
            &VariableStore::new()
        ),
        Ok(Integer::from_i64(16 * 16))
    );
}

#[test]
fn evaluation_modulo_by_zero_carries_the_dividend() {
    assert_eq!(
        eval_term(
            &Term::Modulo(Box::from(Term::Factor(lit(120))), lit(0)),
            &VariableStore::new()
        ),
        Err(CalcError::DivisionByZero(Integer::from_i64(120)))
    );
}

#[test]
fn evaluation_unknown_variable_and_function() {
    assert_eq!(
        eval_factor(&Factor::Variable("nope".to_string()), &store_with("x", 1)),
        Err(CalcError::UnknownVariable("nope".to_string()))
    );
    // The name is looked up before any argument is evaluated.
    assert_eq!(
        eval_factor(
            &Factor::Function(
                "cbrt".to_string(),
                vec![Expr::Term(Term::Factor(Factor::Variable("nope".to_string())))]
            ),
            &VariableStore::new()
        ),
        Err(CalcError::UnknownFunction("cbrt".to_string()))
    );
}

#[test]
fn evaluation_first_failing_argument_wins() {
    let div_by_zero = Expr::Term(Term::Div(Box::new(Term::Factor(lit(7))), lit(0)));
    let unknown = Expr::Term(Term::Factor(Factor::Variable("nope".to_string())));
    assert_eq!(
        eval_factor(
            &Factor::Function("pow".to_string(), vec![div_by_zero, unknown]),
            &VariableStore::new()
        ),
        Err(CalcError::DivisionByZero(Integer::from_i64(7)))
    );
    // The arguments are evaluated before their number is judged.
    let unknown = Expr::Term(Term::Factor(Factor::Variable("nope".to_string())));
    assert_eq!(
        eval_factor(
            &Factor::Function(
                "sqrt".to_string(),
                vec![Expr::Term(Term::Factor(lit(1))), unknown]
            ),
            &VariableStore::new()
        ),
        Err(CalcError::UnknownVariable("nope".to_string()))
    );
}

#[test]
fn evaluation_failure_leaves_the_variables_untouched() {
    let mut vars = store_with("x", 5);
    let failing = ExprBitwise::Expr(Expr::Term(Term::Div(
        Box::new(Term::Factor(lit(1))),
        lit(0),
    )));
    assert_eq!(
        eval_assignment(Assign::Assign("x".to_string(), failing), &mut vars),
        Err(CalcError::DivisionByZero(Integer::from_i64(1)))
    );
    assert_eq!(vars.get("x"), Some(&Integer::from_i64(5)));
    assert_eq!(vars.get("$"), None);
    assert_eq!(vars.len(), 1);
}

#[test]
fn evaluation_shift_judges_the_right_side_before_the_left() {
    // The left side has no value, yet the failure is that of the amount.
    let unknown = ExprBitwise::Expr(Expr::Term(Term::Factor(Factor::Variable(
        "nope".to_string(),
    ))));
    assert_eq!(
        eval_expr_bitwise(
            &ExprBitwise::BitshiftLeft(
                Box::new(unknown),
                Expr::Term(Term::Factor(lit(65536)))
            ),
            &VariableStore::new()
        ),
        Err(CalcError::InvalidBitShiftTooLarge(Integer::from_i64(65536)))
    );
}
