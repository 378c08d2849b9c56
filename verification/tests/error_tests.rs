use calc::eval;
use calc::token::{EvalError, Token};

#[test]
fn unclosed_paren_is_reported() {
    assert_eq!(eval("(2 + 3"), Err(EvalError::ExpectedClosingParen));
}

#[test]
fn dangling_operator_is_reported() {
    assert_eq!(eval("2 +"), Err(EvalError::UnexpectedEndOfInput));
}

#[test]
fn empty_input_is_reported() {
    assert_eq!(eval(""), Err(EvalError::UnexpectedEndOfInput));
}

#[test]
fn foreign_character_is_reported() {
    assert_eq!(eval("2 # 3"), Err(EvalError::InvalidToken('#')));
}

#[test]
fn minus_before_paren_is_reported() {
    assert_eq!(eval("-(1+2)"), Err(EvalError::ExpectedNumberAfterMinus));
}

#[test]
fn minus_before_minus_is_reported() {
    assert_eq!(eval("--5"), Err(EvalError::ExpectedNumberAfterMinus));
}

#[test]
fn minus_at_end_is_reported() {
    assert_eq!(eval("-"), Err(EvalError::ExpectedNumberAfterMinus));
}

#[test]
fn leading_operator_is_reported() {
    assert_eq!(eval("* 2"), Err(EvalError::UnexpectedToken(Token::Star)));
}

#[test]
fn doubled_operator_is_reported() {
    assert_eq!(eval("2 + + 3"), Err(EvalError::UnexpectedToken(Token::Plus)));
}

#[test]
fn division_by_zero_is_reported() {
    assert_eq!(eval("1 / 0"), Err(EvalError::DivisionByZero));
}

#[test]
fn division_by_zero_inside_group_is_reported() {
    assert_eq!(eval("5 + 6 / (3 - 3)"), Err(EvalError::DivisionByZero));
}

#[test]
fn literal_past_i64_max_is_reported() {
    assert_eq!(eval("9223372036854775808"), Err(EvalError::Overflow));
}

#[test]
fn negated_literal_past_i64_max_is_reported() {
    assert_eq!(eval("-9223372036854775808"), Err(EvalError::Overflow));
}

#[test]
fn largest_literal_still_evaluates() {
    assert_eq!(eval("9223372036854775807"), Ok(i64::MAX));
}

#[test]
fn most_negative_literal_in_range_still_evaluates() {
    assert_eq!(eval("-9223372036854775807"), Ok(-i64::MAX));
}

#[test]
fn addition_overflow_is_reported() {
    assert_eq!(eval("9223372036854775807 + 1"), Err(EvalError::Overflow));
}

#[test]
fn subtraction_overflow_is_reported() {
    assert_eq!(eval("-9223372036854775807 - 2"), Err(EvalError::Overflow));
}

#[test]
fn multiplication_overflow_is_reported() {
    assert_eq!(eval("3037000500 * 3037000500"), Err(EvalError::Overflow));
}

#[test]
fn trailing_tokens_are_left_unread() {
    assert_eq!(eval("2 2"), Ok(2));
    assert_eq!(eval("2 + 3)"), Ok(5));
}
