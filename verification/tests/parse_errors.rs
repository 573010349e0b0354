use allay::error::CompileError;
use allay::parser::parse_template;

#[test]
fn number_too_large_is_invalid() {
    match parse_template("{: 99999999999 :}") {
        Err(CompileError::InvalidNumber(n)) => assert_eq!(n, "99999999999"),
        other => panic!("unexpected {:?}", other),
    }
}

#[test]
fn malformed_command_is_a_parsing_error() {
    assert!(matches!(parse_template("{- set -}"), Err(CompileError::ParsingError(_))));
    assert!(matches!(parse_template("{: 1 + :}"), Err(CompileError::ParsingError(_))));
    assert!(matches!(parse_template("{- if #t -}no end"), Err(CompileError::ParsingError(_))));
}

#[test]
fn plain_text_with_braces_parses() {
    assert!(parse_template("a { b } c").is_ok());
}
