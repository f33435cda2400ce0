use bitparse::eval::{parse, queue_operator, Operator, ParseError};
use bitparse::lexer::lex;
use bitparse::number::parse_number;
use bitparse::ops::{apply_binary, classify_binary, classify_unary, operator_precedence, BinOp, UnOp};
use bitparse::token::Token;

#[test]
fn brackets_override_precedence() {
    assert_eq!(parse("(1+2)*3"), Ok(9));
    assert_eq!(parse("1+2*3"), Ok(7));
    assert_eq!(parse("((1+2)*(3+4))"), Ok(21));
    assert_eq!(parse("(2*(3+4))"), Ok(14));
}

#[test]
fn precedence_ordering() {
    assert_eq!(parse("2+3*4"), Ok(14));
    assert_eq!(parse("2*3+4"), Ok(10));
    assert_eq!(parse("8>>1+1"), Ok(2));
    assert_eq!(parse("8>>2"), Ok(2));
    assert_eq!(parse("1|2&3"), Ok(3));
    assert_eq!(parse("6&3|8"), Ok(10));
}

#[test]
fn unary_binds_tightest() {
    assert_eq!(parse("~0+1"), Ok(0));
    assert_eq!(parse("(~0)+1"), Ok(0));
    assert_eq!(parse("~0"), Ok(u64::MAX));
    assert_eq!(parse("!0"), Ok(1));
    assert_eq!(parse("!7"), Ok(0));
    assert_eq!(parse("!0+1"), Ok(2));
}

#[test]
fn divide_by_zero_fails() {
    assert_eq!(parse("5/0"), Err(ParseError::DivideByZero(5)));
    assert_eq!(parse("5%0"), Err(ParseError::DivideByZero(5)));
    assert_eq!(parse("7/2"), Ok(3));
    assert_eq!(parse("7%2"), Ok(1));
}

#[test]
fn unbalanced_brackets_fail() {
    assert_eq!(parse("(1+2"), Err(ParseError::UnexpectedOpenBracket));
    assert_eq!(parse("1+2)"), Err(ParseError::MissingOpenBracket));
    assert_eq!(parse(")"), Err(ParseError::MissingOpenBracket));
}

#[test]
fn prefixed_literals() {
    assert_eq!(parse("0x1F"), Ok(31));
    assert_eq!(parse("0o17"), Ok(15));
    assert_eq!(parse("0b101"), Ok(5));
    assert_eq!(parse("10"), Ok(10));
    assert_eq!(parse("0xff"), Ok(255));
    assert_eq!(parse("0"), Ok(0));
}

#[test]
fn evaluation_is_repeatable() {
    for input in ["(1+2)*3", "5/0", "", "0xGG", "1+2)"] {
        assert_eq!(parse(input), parse(input));
    }
}

#[test]
fn malformed_literal_fails() {
    assert_eq!(parse("0xGG"), Err(ParseError::UnrecognisedNumber("0x".to_string())));
    assert_eq!(parse("0b102"), Err(ParseError::UnrecognisedNumber("0b102".to_string())));
    assert_eq!(parse("12a"), Err(ParseError::UnrecognisedNumber("12a".to_string())));
    assert_eq!(
        parse("18446744073709551616"),
        Err(ParseError::UnrecognisedNumber("18446744073709551616".to_string()))
    );
    assert_eq!(parse("18446744073709551615"), Ok(u64::MAX));
}

#[test]
fn empty_input_fails() {
    assert_eq!(parse(""), Err(ParseError::NoInput));
    assert_eq!(parse("   "), Err(ParseError::NoInput));
    assert_eq!(parse("abc"), Err(ParseError::NoInput));
}

#[test]
fn operator_without_left_operand_fails() {
    assert_eq!(parse("+1"), Err(ParseError::SyntaxError("+".to_string())));
    assert_eq!(parse("1++2"), Err(ParseError::SyntaxError("+".to_string())));
    assert_eq!(parse("(*2)"), Err(ParseError::SyntaxError("*".to_string())));
    assert_eq!(parse("~<<1"), Err(ParseError::SyntaxError("<<".to_string())));
}

#[test]
fn unknown_character_fails() {
    assert_eq!(parse("1 $ 2"), Err(ParseError::UnrecognisedToken('$')));
}

#[test]
fn too_few_operands_fails() {
    assert_eq!(parse("1+"), Err(ParseError::NotEnoughOperands));
    assert_eq!(parse("~"), Err(ParseError::NotEnoughOperands));
}

#[test]
fn arithmetic_wraps() {
    assert_eq!(parse("0-1"), Ok(u64::MAX));
    assert_eq!(parse("0xFFFFFFFFFFFFFFFF+2"), Ok(1));
    assert_eq!(parse("0x100000000*0x100000000"), Ok(0));
}

#[test]
fn wide_shifts_give_zero() {
    assert_eq!(parse("1<<63"), Ok(1u64 << 63));
    assert_eq!(parse("1<<64"), Ok(0));
    assert_eq!(parse("0xFF>>64"), Ok(0));
    assert_eq!(parse("0xFF>>4"), Ok(15));
}

#[test]
fn same_rank_groups_from_the_left() {
    assert_eq!(parse("8-2-1"), Ok(5));
    assert_eq!(parse("(8-2)-1"), Ok(5));
    assert_eq!(parse("8-(2-1)"), Ok(7));
    assert_eq!(parse("10-2+3"), Ok(11));
    assert_eq!(parse("16/4/2"), Ok(2));
    assert_eq!(parse("2*3/2"), Ok(3));
    assert_eq!(parse("1<<2>>1"), Ok(2));
    assert_eq!(parse("2*(3+4)"), Ok(14));
    assert_eq!(parse("((1+2)*3)"), Ok(9));
}

#[test]
fn unary_operators_nest() {
    assert_eq!(parse("~~0"), Ok(0));
    assert_eq!(parse("!!5"), Ok(1));
    assert_eq!(parse("~!0"), Ok(u64::MAX - 1));
    assert_eq!(parse("2*~0"), Ok(u64::MAX - 1));
}

#[test]
fn lone_angle_bracket_is_skipped() {
    assert_eq!(parse("1 < 2"), Ok(2));
    assert_eq!(parse("4 >> 1"), Ok(2));
}

#[test]
fn lexer_tokens() {
    let tokens = lex("0x1F+(~ab)<<2 $");
    assert_eq!(
        tokens,
        vec![
            Token::Number("0x1F".to_string()),
            Token::Operator("+".to_string()),
            Token::OpenParen,
            Token::UnaryOperator("~".to_string()),
            Token::Identifier("ab".to_string()),
            Token::CloseParen,
            Token::Operator("<<".to_string()),
            Token::Number("2".to_string()),
            Token::Unknown('$'),
        ]
    );
    assert_eq!(lex(""), vec![]);
    assert_eq!(lex("0b0b1"), vec![Token::Number("0b0b1".to_string())]);
}

#[test]
fn literal_reading() {
    assert_eq!(parse_number("0x1F"), Some(31));
    assert_eq!(parse_number("0o17"), Some(15));
    assert_eq!(parse_number("0b101"), Some(5));
    assert_eq!(parse_number("0x"), None);
    assert_eq!(parse_number(""), None);
    assert_eq!(parse_number("0b0b1"), None);
    assert_eq!(parse_number("0o8"), None);
}

#[test]
fn operator_tables() {
    assert_eq!(classify_binary("<<"), Some(BinOp::Shl));
    assert_eq!(classify_binary("<"), None);
    assert_eq!(classify_unary("!"), Some(UnOp::IsZero));
    assert_eq!(operator_precedence("*"), 2);
    assert_eq!(operator_precedence("-"), 3);
    assert_eq!(operator_precedence(">>"), 4);
    assert_eq!(operator_precedence("^"), 5);
    assert_eq!(operator_precedence("|"), 6);
    assert_eq!(operator_precedence("?"), 7);
    assert_eq!(apply_binary(BinOp::Sub, 3, 5), Some(u64::MAX - 1));
    assert_eq!(apply_binary(BinOp::Rem, 3, 0), None);
}

#[test]
fn error_messages() {
    assert_eq!(parse("5/0").unwrap_err().message(), "Divide by zero '5 / 0'");
    assert_eq!(parse("1234%0").unwrap_err().message(), "Divide by zero '1234 / 0'");
    assert_eq!(parse("1 $ 2").unwrap_err().message(), "Unrecognised token $");
    assert_eq!(parse("0xGG").unwrap_err().message(), "Unrecognised number 0x");
    assert_eq!(parse("+1").unwrap_err().message(), "Syntax error at token +");
    assert_eq!(parse("(1").unwrap_err().message(), "Unexpected open bracket");
    assert_eq!(parse("1)").unwrap_err().message(), "Missing open bracket");
    assert_eq!(parse("1+").unwrap_err().message(), "Not enough operands");
    assert_eq!(parse("").unwrap_err().message(), "No input");
    assert_eq!(ParseError::UnsupportedOperator.message(), "Unsupported operator");
}

#[test]
fn literals_read_back() {
    for n in [0u64, 1, 7, 31, 255, 4096, 123456789, u64::MAX] {
        assert_eq!(parse_number(&format!("{:#x}", n)), Some(n));
        assert_eq!(parse_number(&format!("{:#o}", n)), Some(n));
        assert_eq!(parse_number(&format!("{:#b}", n)), Some(n));
        assert_eq!(parse_number(&n.to_string()), Some(n));
    }
}

#[test]
fn two_operator_chains() {
    assert_eq!(parse("2+3*4"), Ok(14));
    assert_eq!(parse("2*3+4"), Ok(10));
    assert_eq!(parse("9-3-2"), Ok(4));
    assert_eq!(parse("1+2-3"), Ok(0));
    assert_eq!(parse("5/0-1"), Err(ParseError::DivideByZero(5)));
    assert_eq!(parse("1+5/0"), Err(ParseError::DivideByZero(5)));
}

#[test]
fn outer_brackets_are_optional() {
    assert_eq!(parse("(1+2)*(3+4)"), parse("((1+2)*(3+4))"));
    assert_eq!(parse("(9-3)-(2-1)"), Ok(5));
}

#[test]
fn queuing_open_bracket_applies_nothing() {
    let mut operators = vec![Operator { token: Token::Operator("+".to_string()), precedence: 3 }];
    let mut operands: Vec<u64> = vec![1, 2];
    assert_eq!(queue_operator(&Token::OpenParen, 100, &mut operators, &mut operands), Ok(()));
    assert_eq!(operands, vec![1, 2]);
    assert_eq!(operators.len(), 2);
    assert_eq!(operators[0].token, Token::Operator("+".to_string()));
    assert_eq!(operators[1].token, Token::OpenParen);
    assert_eq!(operators[1].precedence, 100);
    assert_eq!(parse("2*(3+4)"), Ok(14));
}
