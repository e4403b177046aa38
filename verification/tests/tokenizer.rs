use bigcalc::error::CalcError;
use bigcalc::number::Natural;
use bigcalc::parser::RES_VAR;
use bigcalc::tokenizer::{consume_alphanumeric, tokenize, transform_tokens, Token};

fn number(v: u64) -> Token {
    Token::Number(Natural::from_u64(v))
}

fn chars(text: &str) -> Vec<char> {
    text.chars().collect()
}

#[test]
fn test_tokenize_basic() {
    assert_eq!(
        tokenize("(1-(45%4))+123*(12/234)"),
        Ok(vec![
            Token::LeftPar,
            number(1),
            Token::Minus,
            Token::LeftPar,
            number(45),
            Token::Modulo,
            number(4),
            Token::RightPar,
            Token::RightPar,
            Token::Plus,
            number(123),
            Token::Mult,
            Token::LeftPar,
            number(12),
            Token::Div,
            number(234),
            Token::RightPar
        ])
    );
}

#[test]
fn test_tokenize_variable() {
    assert_eq!(
        tokenize("asd=sdf+(ghj/2)"),
        Ok(vec![
            Token::Variable("asd".to_string()),
            Token::Equals,
            Token::Variable("sdf".to_string()),
            Token::Plus,
            Token::LeftPar,
            Token::Variable("ghj".to_string()),
            Token::Div,
            number(2),
            Token::RightPar
        ])
    );
}

// A decimal number is a run of digits alone, so it ends before a letter, and
// the letters behind it make an identifier.
#[test]
fn test_tokenize_invalid_number() {
    assert_eq!(
        tokenize("1+1asd*(12/234)"),
        Ok(vec![
            number(1),
            Token::Plus,
            number(1),
            Token::Variable("asd".to_string()),
            Token::Mult,
            Token::LeftPar,
            number(12),
            Token::Div,
            number(234),
            Token::RightPar
        ])
    );
}

#[test]
fn test_tokenize_invalid_character() {
    assert_eq!(tokenize("1+asd;*(12/234)"), Err(CalcError::InvalidToken(5)));
}

#[test]
fn test_tokenize_variable_with_digit() {
    assert_eq!(
        tokenize("asdf1a"),
        Ok(vec![Token::Variable("asdf1a".to_string())])
    );
}

#[test]
fn test_tokenize_res_variable() {
    assert_eq!(
        tokenize(&RES_VAR.to_string()),
        Ok(vec![Token::ResultVariable])
    )
}

#[test]
fn test_tokenize_zero() {
    // Make sure the hex/binary logic still allows a normal zero
    assert_eq!(tokenize("0"), Ok(vec![number(0)]))
}

#[test]
fn test_tokenize_binary() {
    assert_eq!(tokenize("0b1100"), Ok(vec![number(0b1100)]))
}

#[test]
fn test_tokenize_hex() {
    assert_eq!(tokenize("0xAAAA"), Ok(vec![number(0xAAAA)]))
}

#[test]
fn test_tokenize_invalid_hex() {
    assert_eq!(tokenize("0x"), Err(CalcError::InvalidToken(0)))
}

#[test]
fn test_consume_alphanumeric_prefix() {
    let mut pos = 0;
    assert!(consume_alphanumeric(&[], &mut pos, None).is_empty());
    assert_eq!(pos, 0);
    assert_eq!(&consume_alphanumeric(&[], &mut pos, Some("asdf")), "asdf");
    assert_eq!(
        &consume_alphanumeric(&chars("123"), &mut pos, Some("asdf")),
        "asdf123"
    );
    assert_eq!(pos, 3);
}

#[test]
fn test_consume_alphanumeric() {
    // ignore non-alphanumeric
    let mut pos = 0;
    assert_eq!(&consume_alphanumeric(&chars("123*"), &mut pos, None), "123");
    assert_eq!(pos, 3);
}

#[test]
fn test_tokenize_special_function() {
    // Special function names cannot be used as variables
    // so tokenizer should reject them
    assert_eq!(
        tokenize("exit"),
        Err(CalcError::SpecialVariableInvalidUse(String::from("exit")))
    )
}

#[test]
fn test_tokenize_bitwise() {
    assert_eq!(
        tokenize("|>><<&^"),
        Ok(vec![
            Token::BitwiseOr,
            Token::BitshiftRight,
            Token::BitshiftLeft,
            Token::BitwiseAnd,
            Token::BitwiseXor,
        ])
    )
}

#[test]
fn test_tokenize_function() {
    assert_eq!(
        tokenize("fn("),
        Ok(vec![Token::Function(String::from("fn")), Token::LeftPar])
    )
}

#[test]
fn tokenize_every_command_name_is_refused() {
    for name in ["exit", "vars", "bin", "dec", "hex", "clear"] {
        assert_eq!(
            tokenize(name),
            Err(CalcError::SpecialVariableInvalidUse(name.to_string()))
        );
        assert_eq!(
            tokenize(&format!("1 + {}", name)),
            Err(CalcError::SpecialVariableInvalidUse(name.to_string()))
        );
    }
    // A longer or differently cased name is an ordinary identifier.
    assert_eq!(
        tokenize("exits"),
        Ok(vec![Token::Variable("exits".to_string())])
    );
    assert_eq!(
        tokenize("Exit"),
        Ok(vec![Token::Variable("Exit".to_string())])
    );
}

#[test]
fn tokenize_empty_and_blank_lines() {
    assert_eq!(tokenize(""), Ok(vec![]));
    assert_eq!(tokenize("  \t "), Ok(vec![]));
    assert_eq!(
        tokenize(" 1 \t+  2 "),
        Ok(vec![number(1), Token::Plus, number(2)])
    );
}

#[test]
fn tokenize_lone_angle_bracket_fails_at_its_index() {
    assert_eq!(tokenize("1 > 2"), Err(CalcError::InvalidToken(2)));
    assert_eq!(tokenize("1 <"), Err(CalcError::InvalidToken(2)));
    assert_eq!(tokenize("1<>2"), Err(CalcError::InvalidToken(1)));
    assert_eq!(
        tokenize("1>>2"),
        Ok(vec![number(1), Token::BitshiftRight, number(2)])
    );
}

#[test]
fn tokenize_zero_prefix_rules() {
    // A zero before anything that is no letter or digit is the number zero.
    assert_eq!(
        tokenize("0+0"),
        Ok(vec![number(0), Token::Plus, number(0)])
    );
    // A zero before a digit or another letter begins no token.
    assert_eq!(tokenize("01"), Err(CalcError::InvalidToken(0)));
    assert_eq!(tokenize("1+0a"), Err(CalcError::InvalidToken(2)));
    // The digits after the prefix must belong to the base.
    assert_eq!(tokenize("0b102"), Err(CalcError::InvalidToken(0)));
    assert_eq!(tokenize("0xfg"), Err(CalcError::InvalidToken(0)));
    assert_eq!(tokenize("2+0b"), Err(CalcError::InvalidToken(2)));
    assert_eq!(tokenize("0xff"), Ok(vec![number(255)]));
    assert_eq!(tokenize("0xFf+1"), Ok(vec![number(255), Token::Plus, number(1)]));
    assert_eq!(tokenize("0b0"), Ok(vec![number(0)]));
}

#[test]
fn tokenize_number_beyond_machine_words() {
    // 2^64 in decimal and in base 16 is one and the same number.
    assert_eq!(
        tokenize("18446744073709551616"),
        tokenize("0x10000000000000000")
    );
    let tokens = tokenize("18446744073709551616").unwrap();
    assert_eq!(tokens.len(), 1);
    assert_ne!(tokens[0], number(0));
    match &tokens[0] {
        Token::Number(n) => assert_eq!(n.to_bytes_le(), vec![0, 0, 0, 0, 0, 0, 0, 0, 1]),
        _ => panic!("a number was expected"),
    }
}

#[test]
fn tokenize_invalid_token_reports_character_index() {
    // The index counts characters, not bytes.
    assert_eq!(tokenize("é"), Err(CalcError::InvalidToken(0)));
    assert_eq!(tokenize("aé;"), Err(CalcError::InvalidToken(2)));
    assert_eq!(tokenize("1,2"), Err(CalcError::InvalidToken(1)));
}

#[test]
fn transform_tokens_marks_only_identifiers_before_a_parenthesis() {
    let mut tokens = vec![
        Token::Variable("f".to_string()),
        Token::LeftPar,
        Token::Variable("x".to_string()),
        Token::RightPar,
        Token::LeftPar,
        Token::Variable("g".to_string()),
    ];
    transform_tokens(&mut tokens);
    assert_eq!(
        tokens,
        vec![
            Token::Function("f".to_string()),
            Token::LeftPar,
            Token::Variable("x".to_string()),
            Token::RightPar,
            Token::LeftPar,
            Token::Variable("g".to_string()),
        ]
    );
}

#[test]
fn consume_alphanumeric_stops_at_the_first_other_character() {
    let line = chars("ab1 cd");
    let mut pos = 0;
    assert_eq!(consume_alphanumeric(&line, &mut pos, None), "ab1");
    assert_eq!(pos, 3);
    // At a character that is not alphanumeric nothing is taken.
    assert_eq!(consume_alphanumeric(&line, &mut pos, Some("x")), "x");
    assert_eq!(pos, 3);
    pos = 4;
    assert_eq!(consume_alphanumeric(&line, &mut pos, None), "cd");
    assert_eq!(pos, 6);
    // At the end and behind it there is nothing to take.
    assert_eq!(consume_alphanumeric(&line, &mut pos, Some("p")), "p");
    assert_eq!(pos, 6);
    pos = 9;
    assert_eq!(consume_alphanumeric(&line, &mut pos, None), "");
    assert_eq!(pos, 9);
    // Letters and digits beyond ASCII belong to a run.
    let mut pos = 0;
    assert_eq!(consume_alphanumeric(&chars("né٣+"), &mut pos, None), "né٣");
    assert_eq!(pos, 3);
}
