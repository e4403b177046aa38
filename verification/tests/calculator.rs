use bigcalc::chars::{
    chars_of, is_ascii_alphanumeric, is_ascii_digit, is_ascii_letter, is_blank, is_letter_or_digit,
    same_text,
};
use bigcalc::commands::{
    is_command_name, parse_command, Command, CommandEffect, DisplayMode,
    RuntimeVariables,
};
use bigcalc::error::CalcError;
use bigcalc::evaluator::eval_assignment;
use bigcalc::functions::{lookup_function, pow_func, sqrt_func, Function};
use bigcalc::number::{Integer, Natural};
use bigcalc::parser::parse_assignment;
use bigcalc::session::{evaluate_line, run_line, LineOutcome};
use bigcalc::store::VariableStore;
use bigcalc::tokenizer::tokenize;

/// Runs one line through the lexer, the parser and the evaluator, and
/// returns the value that the line bound.
fn run(line: &str, vars: &mut VariableStore) -> Result<Integer, CalcError> {
    let tokens = tokenize(line)?;
    let tree = parse_assignment(&tokens)?;
    let name = eval_assignment(tree, vars)?;
    Ok(vars.get(&name).expect("the bound name is in the store").clone())
}

fn value_of(line: &str) -> Result<Integer, CalcError> {
    run(line, &mut VariableStore::new())
}

fn is(v: i64) -> Result<Integer, CalcError> {
    Ok(Integer::from_i64(v))
}

#[test]
fn single_operator_lines_give_exact_results() {
    assert_eq!(value_of("7+5"), is(12));
    assert_eq!(value_of("7-12"), is(-5));
    assert_eq!(value_of("7*5"), is(35));
    assert_eq!(value_of("37/5"), is(7));
    assert_eq!(value_of("37%5"), is(2));
    assert_eq!(value_of("12&10"), is(8));
    assert_eq!(value_of("12|10"), is(14));
    assert_eq!(value_of("12^10"), is(6));
    assert_eq!(value_of("3<<4"), is(48));
    assert_eq!(value_of("48>>3"), is(6));
}

#[test]
fn results_beyond_machine_words_are_exact() {
    // 2^64 * 2^64 = 2^128, and 2^128 >> 125 = 8.
    let mut vars = VariableStore::new();
    run("a = 18446744073709551616 * 18446744073709551616", &mut vars).unwrap();
    assert_eq!(run("a >> 125", &mut vars), is(8));
    assert_eq!(run("b = 1 << 128", &mut vars), run("a", &mut vars));
    assert_eq!(run("a - b", &mut vars), is(0));
    assert_eq!(run("a / 18446744073709551616", &mut vars), value_of("1<<64"));
    // 2^64 + 1 does not wrap around to 1.
    assert_eq!(
        value_of("18446744073709551616 + 1").unwrap().to_signed_bytes_le(),
        vec![1, 0, 0, 0, 0, 0, 0, 0, 1]
    );
}

#[test]
fn division_and_remainder_round_toward_zero() {
    let mut vars = VariableStore::new();
    run("n = -7", &mut vars).unwrap();
    run("m = -2", &mut vars).unwrap();
    assert_eq!(run("n / 2", &mut vars), is(-3));
    assert_eq!(run("n % 2", &mut vars), is(-1));
    assert_eq!(run("7 / m", &mut vars), is(-3));
    assert_eq!(run("7 % m", &mut vars), is(1));
    assert_eq!(run("n / m", &mut vars), is(3));
    assert_eq!(run("n % m", &mut vars), is(-1));
}

#[test]
fn division_and_modulo_by_zero_carry_the_dividend() {
    assert_eq!(
        value_of("42/0"),
        Err(CalcError::DivisionByZero(Integer::from_i64(42)))
    );
    assert_eq!(
        value_of("42%0"),
        Err(CalcError::DivisionByZero(Integer::from_i64(42)))
    );
    let mut vars = VariableStore::new();
    run("n = -9", &mut vars).unwrap();
    assert_eq!(
        run("n / 0", &mut vars),
        Err(CalcError::DivisionByZero(Integer::from_i64(-9)))
    );
    assert_eq!(
        run("n % (1-1)", &mut vars),
        Err(CalcError::DivisionByZero(Integer::from_i64(-9)))
    );
}

#[test]
fn bitwise_operators_work_on_twos_complement() {
    let mut vars = VariableStore::new();
    run("n = -6", &mut vars).unwrap();
    run("m = -1", &mut vars).unwrap();
    assert_eq!(run("n & 3", &mut vars), is(2));
    assert_eq!(run("n | 3", &mut vars), is(-5));
    assert_eq!(run("n ^ 3", &mut vars), is(-7));
    assert_eq!(run("m & 12345", &mut vars), is(12345));
    assert_eq!(run("m ^ 5", &mut vars), is(-6));
    assert_eq!(run("0 | n", &mut vars), is(-6));
    // A shift to the right rounds toward negative infinity.
    assert_eq!(run("n >> 1", &mut vars), is(-3));
    assert_eq!(run("m >> 10", &mut vars), is(-1));
    assert_eq!(run("n << 2", &mut vars), is(-24));
}

#[test]
fn shift_amount_limits() {
    assert_eq!(
        value_of("1 >> 65536"),
        Err(CalcError::InvalidBitShiftTooLarge(Integer::from_i64(65536)))
    );
    assert_eq!(
        value_of("1 << 4294967296"),
        Err(CalcError::InvalidBitShiftTooLarge(Integer::from_i64(
            4294967296
        )))
    );
    assert_eq!(value_of("1 >> 65535"), is(0));
    let big = value_of("1 << 65535").unwrap().to_signed_bytes_le();
    assert_eq!(big.len(), 8193);
    assert_eq!(big[8192], 0);
    assert_eq!(big[8191], 0x80);
    assert_eq!(big[8190], 0);
    let mut vars = VariableStore::new();
    run("n = -1", &mut vars).unwrap();
    run("h = -100000", &mut vars).unwrap();
    assert_eq!(
        run("1 << (n)", &mut vars),
        Err(CalcError::InvalidBitShiftNegative)
    );
    assert_eq!(
        run("1 >> (h)", &mut vars),
        Err(CalcError::InvalidBitShiftNegative)
    );
}

#[test]
fn sqrt_function() {
    assert_eq!(value_of("sqrt(16)"), is(4));
    assert_eq!(value_of("sqrt(17)"), is(4));
    assert_eq!(value_of("sqrt(24)"), is(4));
    assert_eq!(value_of("sqrt(25)"), is(5));
    assert_eq!(value_of("sqrt(0)"), is(0));
    assert_eq!(value_of("sqrt(1)"), is(1));
    assert_eq!(
        value_of("sqrt(-16)"),
        Err(CalcError::InvalidFunctionArgument(
            "sqrt function does not take negative argument. Passed -16".to_string()
        ))
    );
    assert_eq!(
        value_of("sqrt()"),
        Err(CalcError::WrongArgumentCount("sqrt".to_string(), 1, 0))
    );
    assert_eq!(
        sqrt_func(&[Integer::from_i64(4), Integer::from_i64(9)]),
        Err(CalcError::WrongArgumentCount("sqrt".to_string(), 1, 2))
    );
    assert_eq!(
        sqrt_func(&[Integer::from_i64(1), Integer::from_i64(2), Integer::from_i64(3)]),
        Err(CalcError::WrongArgumentCount("sqrt".to_string(), 1, 3))
    );
    assert_eq!(sqrt_func(&[Integer::from_i64(99)]), is(9));
}

#[test]
fn pow_function() {
    assert_eq!(
        pow_func(&[Integer::from_i64(2), Integer::from_i64(10)]),
        is(1024)
    );
    assert_eq!(
        pow_func(&[Integer::from_i64(-3), Integer::from_i64(3)]),
        is(-27)
    );
    assert_eq!(
        pow_func(&[Integer::from_i64(7), Integer::from_i64(0)]),
        is(1)
    );
    assert_eq!(
        pow_func(&[Integer::from_i64(0), Integer::from_i64(0)]),
        is(1)
    );
    assert_eq!(
        pow_func(&[Integer::from_i64(2), Integer::from_i64(-1)]),
        Err(CalcError::InvalidFunctionArgument(
            "Exponent of the pow function cannot be negative. Passed -1".to_string()
        ))
    );
    assert_eq!(
        pow_func(&[Integer::from_i64(1), Integer::from_i64(4294967296)]),
        Err(CalcError::InvalidFunctionArgument(
            "Exponent of the pow function cannot be negative. Passed 4294967296".to_string()
        ))
    );
    assert_eq!(
        pow_func(&[Integer::from_i64(2)]),
        Err(CalcError::WrongArgumentCount("pow".to_string(), 2, 1))
    );
    assert_eq!(
        value_of("pow(2)"),
        Err(CalcError::WrongArgumentCount("pow".to_string(), 2, 1))
    );
    assert_eq!(
        pow_func(&[]),
        Err(CalcError::WrongArgumentCount("pow".to_string(), 2, 0))
    );
    // 2^100 is exact: one set bit, behind twelve zero bytes.
    let big = pow_func(&[Integer::from_i64(2), Integer::from_i64(100)]).unwrap();
    assert_eq!(
        big.to_signed_bytes_le(),
        vec![0, 0, 0, 0, 0, 0, 0, 0, 0, 0, 0, 0, 16]
    );
}

#[test]
fn function_table() {
    assert_eq!(lookup_function("sqrt"), Some(Function::Sqrt));
    assert_eq!(lookup_function("pow"), Some(Function::Pow));
    assert_eq!(lookup_function("Sqrt"), None);
    assert_eq!(lookup_function(""), None);
    assert_eq!(Function::Sqrt.arity(), 1);
    assert_eq!(Function::Pow.arity(), 2);
    assert_eq!(Function::Sqrt.name(), "sqrt");
    assert_eq!(Function::Pow.name(), "pow");
    assert_eq!(lookup_function(Function::Pow.name()), Some(Function::Pow));
    assert_eq!(Function::Sqrt.apply(&[Integer::from_i64(81)]), is(9));
    assert_eq!(
        Function::Pow.apply(&[Integer::from_i64(3), Integer::from_i64(4)]),
        is(81)
    );
    assert_eq!(
        value_of("cbrt(8)"),
        Err(CalcError::UnknownFunction("cbrt".to_string()))
    );
}

#[test]
fn bare_expression_binds_only_the_result_variable() {
    let mut vars = VariableStore::new();
    assert_eq!(run("x = 5", &mut vars), is(5));
    let tokens = tokenize("-x").unwrap();
    let tree = parse_assignment(&tokens).unwrap();
    assert_eq!(eval_assignment(tree, &mut vars), Ok("$".to_string()));
    assert_eq!(vars.get("$"), Some(&Integer::from_i64(-5)));
    assert_eq!(vars.get("x"), Some(&Integer::from_i64(5)));
    assert_eq!(vars.len(), 2);
    // The result variable can be read back.
    assert_eq!(run("$ * 2", &mut vars), is(-10));
    assert_eq!(run("y = $ + x", &mut vars), is(-5));
}

#[test]
fn radix_prefixes_round_trip() {
    assert_eq!(value_of("0x10"), is(16));
    assert_eq!(value_of("0b101"), is(5));
    assert_eq!(value_of("0xff + 0b1"), is(256));
    assert_eq!(value_of("0xAbC"), is(2748));
}

#[test]
fn assigning_twice_keeps_the_latest_value() {
    let mut vars = VariableStore::new();
    assert_eq!(run("x = 5", &mut vars), is(5));
    assert_eq!(run("x = -x", &mut vars), is(-5));
    assert_eq!(vars.get("x"), Some(&Integer::from_i64(-5)));
    assert_eq!(vars.len(), 1);
    assert_eq!(vars.names(), vec!["x".to_string()]);
}

#[test]
fn unknown_variable_is_named_in_the_failure() {
    assert_eq!(
        value_of("y + 1"),
        Err(CalcError::UnknownVariable("y".to_string()))
    );
    assert_eq!(
        value_of("$"),
        Err(CalcError::UnknownVariable("$".to_string()))
    );
}

#[test]
fn store_insert_get_clear() {
    let mut vars = VariableStore::new();
    assert_eq!(vars.len(), 0);
    assert_eq!(vars.get("a"), None);
    vars.insert("a".to_string(), Integer::from_i64(1));
    vars.insert("b".to_string(), Integer::from_i64(2));
    vars.insert("a".to_string(), Integer::from_i64(3));
    assert_eq!(vars.len(), 2);
    assert_eq!(vars.get("a"), Some(&Integer::from_i64(3)));
    assert_eq!(vars.get("b"), Some(&Integer::from_i64(2)));
    assert_eq!(vars.get("A"), None);
    let mut names = vars.names();
    names.sort();
    assert_eq!(names, vec!["a".to_string(), "b".to_string()]);
    vars.clear();
    assert_eq!(vars.len(), 0);
    assert_eq!(vars.get("a"), None);
}

#[test]
fn numbers_convert_and_compare() {
    assert_eq!(Natural::from_u64(0).to_bytes_le(), vec![0]);
    assert_eq!(Natural::from_u64(258).to_bytes_le(), vec![2, 1]);
    assert_eq!(Natural::from_u64(7).clone(), Natural::from_u64(7));
    assert_ne!(Natural::from_u64(7), Natural::from_u64(8));
    assert_eq!(Integer::from_i64(0).to_signed_bytes_le(), vec![0]);
    assert_eq!(Integer::from_i64(-1).to_signed_bytes_le(), vec![255]);
    assert_eq!(Integer::from_i64(128).to_signed_bytes_le(), vec![128, 0]);
    assert_eq!(Integer::from_i64(-1125).to_signed_bytes_le(), vec![155, 251]);
    assert_eq!(Integer::from_i64(-5).clone(), Integer::from_i64(-5));
    assert_ne!(Integer::from_i64(-5), Integer::from_i64(5));
    // Bytes that say one number in a longer way give the same number.
    assert_eq!(
        Integer::from_signed_bytes_le(&[255, 255, 255]),
        Integer::from_i64(-1)
    );
    assert_eq!(
        Integer::from_signed_bytes_le(&[5, 0, 0]).to_signed_bytes_le(),
        vec![5]
    );
    assert_eq!(Integer::from_signed_bytes_le(&[]), Integer::from_i64(0));
    assert_eq!(
        Integer::from_signed_bytes_le(&[0, 128]),
        Integer::from_i64(-32768)
    );
}

#[test]
fn texts_as_characters() {
    assert_eq!(chars_of(""), Vec::<char>::new());
    assert_eq!(chars_of("aé$"), vec!['a', 'é', '$']);
}

#[test]
fn command_names() {
    assert_eq!(parse_command("exit"), Some(Command::Exit));
    assert_eq!(parse_command("vars"), Some(Command::Vars));
    assert_eq!(parse_command("bin"), Some(Command::Bin));
    assert_eq!(parse_command("dec"), Some(Command::Dec));
    assert_eq!(parse_command("hex"), Some(Command::Hex));
    assert_eq!(parse_command("clear"), Some(Command::Clear));
    assert_eq!(parse_command("Exit"), None);
    assert_eq!(parse_command("exit "), None);
    assert_eq!(parse_command(""), None);
    assert!(is_command_name("clear"));
    assert!(!is_command_name("clea"));
    assert!(same_text("héllo", "héllo"));
    assert!(!same_text("hello", "hellO"));
    assert!(!same_text("hello", "hell"));
}

#[test]
fn commands_change_the_session() {
    let mut session = RuntimeVariables::new();
    assert_eq!(session.display_mode, DisplayMode::Decimal);
    session.vars.insert("x".to_string(), Integer::from_i64(1));
    assert_eq!(session.run_command(Command::Hex), CommandEffect::Done);
    assert_eq!(session.display_mode, DisplayMode::Hex);
    assert_eq!(session.run_command(Command::Bin), CommandEffect::Done);
    assert_eq!(session.display_mode, DisplayMode::Binary);
    assert_eq!(
        session.run_command(Command::Vars),
        CommandEffect::PrintVariables
    );
    assert_eq!(session.run_command(Command::Exit), CommandEffect::Exit);
    assert_eq!(session.display_mode, DisplayMode::Binary);
    assert_eq!(session.vars.len(), 1);
    assert_eq!(
        session.run_command(Command::Clear),
        CommandEffect::ClearScreen
    );
    assert_eq!(session.vars.len(), 0);
    assert_eq!(session.display_mode, DisplayMode::Binary);
    assert_eq!(session.run_command(Command::Dec), CommandEffect::Done);
    assert_eq!(session.display_mode, DisplayMode::Decimal);
}

#[test]
fn a_line_is_a_command_or_an_expression() {
    let mut session = RuntimeVariables::new();
    match run_line(&mut session, "x = 0x10 + 1") {
        LineOutcome::Bound(name) => assert_eq!(name, "x"),
        other => panic!("unexpected outcome: {:?}", other),
    }
    assert_eq!(session.vars.get("x"), Some(&Integer::from_i64(17)));
    match run_line(&mut session, "x * 2") {
        LineOutcome::Bound(name) => assert_eq!(name, "$"),
        other => panic!("unexpected outcome: {:?}", other),
    }
    assert_eq!(session.vars.get("$"), Some(&Integer::from_i64(34)));
    match run_line(&mut session, "hex") {
        LineOutcome::Command(effect) => assert_eq!(effect, CommandEffect::Done),
        other => panic!("unexpected outcome: {:?}", other),
    }
    assert_eq!(session.display_mode, DisplayMode::Hex);
    // A command's name inside an expression is refused, and nothing changes.
    match run_line(&mut session, "x = hex") {
        LineOutcome::Failed(e) => {
            assert_eq!(e, CalcError::SpecialVariableInvalidUse("hex".to_string()))
        }
        other => panic!("unexpected outcome: {:?}", other),
    }
    match run_line(&mut session, "x = (1") {
        LineOutcome::Failed(e) => assert_eq!(e, CalcError::UnclosedParanthesis),
        other => panic!("unexpected outcome: {:?}", other),
    }
    match run_line(&mut session, "x = y") {
        LineOutcome::Failed(e) => assert_eq!(e, CalcError::UnknownVariable("y".to_string())),
        other => panic!("unexpected outcome: {:?}", other),
    }
    assert_eq!(session.vars.get("x"), Some(&Integer::from_i64(17)));
    assert_eq!(session.vars.len(), 2);
    match run_line(&mut session, "clear") {
        LineOutcome::Command(effect) => assert_eq!(effect, CommandEffect::ClearScreen),
        other => panic!("unexpected outcome: {:?}", other),
    }
    assert_eq!(session.vars.len(), 0);
    // An empty line is an empty expression.
    match run_line(&mut session, "") {
        LineOutcome::Failed(e) => assert_eq!(e, CalcError::InvalidExpression),
        other => panic!("unexpected outcome: {:?}", other),
    }
}

#[test]
fn evaluate_line_binds_and_returns_the_name() {
    let mut vars = VariableStore::new();
    assert_eq!(evaluate_line("a = 6 * 7", &mut vars), Ok("a".to_string()));
    assert_eq!(evaluate_line("a % 5", &mut vars), Ok("$".to_string()));
    assert_eq!(vars.get("a"), Some(&Integer::from_i64(42)));
    assert_eq!(vars.get("$"), Some(&Integer::from_i64(2)));
    assert_eq!(
        evaluate_line("a = 1 ; 2", &mut vars),
        Err(CalcError::InvalidToken(6))
    );
    assert_eq!(vars.get("a"), Some(&Integer::from_i64(42)));
}

#[test]
fn character_classes_agree_with_the_standard_library() {
    for code in 0u32..0x3000 {
        if let Some(c) = char::from_u32(code) {
            assert_eq!(is_letter_or_digit(c), c.is_alphanumeric(), "{:?}", c);
            assert_eq!(is_blank(c), c.is_whitespace(), "{:?}", c);
            assert_eq!(is_ascii_digit(c), c.is_ascii_digit(), "{:?}", c);
            assert_eq!(is_ascii_letter(c), c.is_ascii_alphabetic(), "{:?}", c);
            assert_eq!(is_ascii_alphanumeric(c), c.is_ascii_alphanumeric(), "{:?}", c);
        }
    }
    assert!(is_blank('\u{b}'));
    assert!(is_blank('\u{a0}'));
    assert!(!is_blank('\u{1c}'));
    assert!(is_letter_or_digit('é'));
    assert!(!is_letter_or_digit('_'));
}

#[test]
fn white_space_of_any_kind_is_skipped() {
    assert_eq!(value_of("1\u{a0}+\t2\u{b}"), is(3));
    assert_eq!(value_of("\u{2003}7"), is(7));
}

/// Bitwise "and" by halving, as the contract of the evaluator defines it.
fn and_by_halving(a: i64, b: i64) -> i64 {
    if a == 0 {
        0
    } else if a == -1 {
        b
    } else {
        let bit = a.rem_euclid(2) == 1 && b.rem_euclid(2) == 1;
        2 * and_by_halving(a.div_euclid(2), b.div_euclid(2)) + if bit { 1 } else { 0 }
    }
}

/// Bitwise "or" by halving, as the contract of the evaluator defines it.
fn or_by_halving(a: i64, b: i64) -> i64 {
    if a == 0 {
        b
    } else if a == -1 {
        -1
    } else {
        let bit = a.rem_euclid(2) == 1 || b.rem_euclid(2) == 1;
        2 * or_by_halving(a.div_euclid(2), b.div_euclid(2)) + if bit { 1 } else { 0 }
    }
}

/// Bitwise "exclusive or" by halving, as the contract of the evaluator defines it.
fn xor_by_halving(a: i64, b: i64) -> i64 {
    if a == 0 {
        b
    } else if a == -1 {
        -b - 1
    } else {
        let bit = (a.rem_euclid(2) == 1) != (b.rem_euclid(2) == 1);
        2 * xor_by_halving(a.div_euclid(2), b.div_euclid(2)) + if bit { 1 } else { 0 }
    }
}

#[test]
fn operators_follow_their_definitions_on_small_numbers() {
    let mut vars = VariableStore::new();
    for a in -33i64..34 {
        vars.insert("a".to_string(), Integer::from_i64(a));
        for b in -33i64..34 {
            vars.insert("b".to_string(), Integer::from_i64(b));
            assert_eq!(run("a + b", &mut vars), is(a + b));
            assert_eq!(run("a - b", &mut vars), is(a - b));
            assert_eq!(run("a * b", &mut vars), is(a * b));
            assert_eq!(run("a & b", &mut vars), is(and_by_halving(a, b)));
            assert_eq!(run("a | b", &mut vars), is(or_by_halving(a, b)));
            assert_eq!(run("a ^ b", &mut vars), is(xor_by_halving(a, b)));
            assert_eq!(and_by_halving(a, b), a & b);
            assert_eq!(or_by_halving(a, b), a | b);
            assert_eq!(xor_by_halving(a, b), a ^ b);
            if b == 0 {
                assert_eq!(
                    run("a / b", &mut vars),
                    Err(CalcError::DivisionByZero(Integer::from_i64(a)))
                );
                assert_eq!(
                    run("a % b", &mut vars),
                    Err(CalcError::DivisionByZero(Integer::from_i64(a)))
                );
            } else {
                // Rounded toward zero, the remainder with the sign of `a`.
                let q = if (a >= 0) == (b > 0) {
                    a.abs() / b.abs()
                } else {
                    -(a.abs() / b.abs())
                };
                assert_eq!(run("a / b", &mut vars), is(q));
                assert_eq!(run("a % b", &mut vars), is(a - b * q));
            }
            if b < 0 {
                assert_eq!(
                    run("a << b", &mut vars),
                    Err(CalcError::InvalidBitShiftNegative)
                );
                assert_eq!(
                    run("a >> b", &mut vars),
                    Err(CalcError::InvalidBitShiftNegative)
                );
            } else {
                let power = 1i64 << b;
                assert_eq!(run("a << b", &mut vars), is(a * power));
                assert_eq!(run("a >> b", &mut vars), is(a.div_euclid(power)));
            }
        }
    }
}

#[test]
fn sqrt_and_pow_follow_their_definitions_on_small_numbers() {
    for v in 0i64..2000 {
        let root = sqrt_func(&[Integer::from_i64(v)]).unwrap();
        let mut r = 0i64;
        while (r + 1) * (r + 1) <= v {
            r += 1;
        }
        assert_eq!(root, Integer::from_i64(r));
    }
    for v in [-1i64, -9, -10, -99, -100, -12345, -9007199254740993, i64::MIN] {
        assert_eq!(
            sqrt_func(&[Integer::from_i64(v)]),
            Err(CalcError::InvalidFunctionArgument(format!(
                "sqrt function does not take negative argument. Passed {}",
                v
            )))
        );
    }
    for v in [4294967296i64, 10000000000, i64::MAX] {
        assert_eq!(
            pow_func(&[Integer::from_i64(2), Integer::from_i64(v)]),
            Err(CalcError::InvalidFunctionArgument(format!(
                "Exponent of the pow function cannot be negative. Passed {}",
                v
            )))
        );
    }
    for base in -6i64..7 {
        let mut power = 1i64;
        for exponent in 0i64..12 {
            assert_eq!(
                pow_func(&[Integer::from_i64(base), Integer::from_i64(exponent)]),
                is(power)
            );
            power *= base;
        }
    }
}

#[test]
fn numbers_have_the_value_of_their_bytes() {
    for v in -70000i64..70000 {
        let bytes = Integer::from_i64(v).to_signed_bytes_le();
        let mut unsigned: i64 = 0;
        for (i, byte) in bytes.iter().enumerate() {
            unsigned += (*byte as i64) << (8 * i);
        }
        let value = if *bytes.last().unwrap() >= 128 {
            unsigned - (1i64 << (8 * bytes.len()))
        } else {
            unsigned
        };
        assert_eq!(value, v);
    }
    for v in 0u64..70000 {
        let bytes = Natural::from_u64(v).to_bytes_le();
        let mut value: u64 = 0;
        for (i, byte) in bytes.iter().enumerate() {
            value += (*byte as u64) << (8 * i);
        }
        assert_eq!(value, v);
    }
}
