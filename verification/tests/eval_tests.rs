use calc::eval;

#[test]
fn test_simple_addition() {
    assert_eq!(eval("2 + 2"), Ok(4));
}

#[test]
fn test_simple_subtraction() {
    assert_eq!(eval("5 - 3"), Ok(2));
}

#[test]
fn test_simple_multiplication() {
    assert_eq!(eval("3 * 4"), Ok(12));
}

#[test]
fn test_simple_division() {
    assert_eq!(eval("10 / 2"), Ok(5));
}

#[test]
fn test_combined_expression() {
    assert_eq!(eval("2 + 3 * 4"), Ok(14));
}

#[test]
fn test_combined_expression_with_parentheses() {
    assert_eq!(eval("(2 + 3) * 4"), Ok(20));
}

#[test]
fn test_nested_parentheses() {
    assert_eq!(eval("((1 + 2) * (3 + 4))"), Ok(21));
}

#[test]
fn test_division_and_subtraction() {
    assert_eq!(eval("20 / 4 - 2"), Ok(3));
}

#[test]
fn test_large_numbers() {
    assert_eq!(eval("1000000 * 2 + 3000000 / 1000"), Ok(2003000));
}

#[test]
fn test_expression_with_spaces() {
    assert_eq!(eval(" 2 + 2 "), Ok(4));
}

#[test]
fn test_simple_addition_negative() {
    assert_eq!(eval("2 + -2"), Ok(0));
}

#[test]
fn test_simple_subtraction_negative() {
    assert_eq!(eval("5 - -3"), Ok(8));
}

#[test]
fn test_simple_multiplication_negative() {
    assert_eq!(eval("3 * -4"), Ok(-12));
}

#[test]
fn test_simple_division_negative() {
    assert_eq!(eval("10 / -2"), Ok(-5));
}

#[test]
fn test_combined_expression_negative() {
    assert_eq!(eval("2 + 3 * -4"), Ok(-10));
}

#[test]
fn test_combined_expression_with_parentheses_negative() {
    assert_eq!(eval("(2 + -3) * 4"), Ok(-4));
}

#[test]
fn test_nested_parentheses_negative() {
    assert_eq!(eval("((1 + -2) * (3 + 4))"), Ok(-7));
}

#[test]
fn test_division_and_subtraction_negative() {
    assert_eq!(eval("20 / -4 - 2"), Ok(-7));
}

#[test]
fn test_large_numbers_negative() {
    assert_eq!(eval("1000000 * 2 + -3000000 / 1000"), Ok(1997000));
}

#[test]
fn test_negative_numbers_negative() {
    assert_eq!(eval("-5 + -3"), Ok(-8));
}

#[test]
fn test_negative_result_negative() {
    assert_eq!(eval("3 - -5"), Ok(8));
}

#[test]
fn test_negative_multiplication_negative() {
    assert_eq!(eval("-3 * -4"), Ok(12));
}

#[test]
fn test_negative_division_negative() {
    assert_eq!(eval("-10 / -2"), Ok(5));
}

#[test]
fn test_expression_with_spaces_negative() {
    assert_eq!(eval(" 2 + -2 "), Ok(0));
}

#[test]
fn test_subtracting_negative_numbers_negative() {
    assert_eq!(eval("5 - -3"), Ok(8));
}

#[test]
fn test_multiplying_negative_numbers_negative() {
    assert_eq!(eval("-5 * -3"), Ok(15));
}

#[test]
fn test_dividing_negative_numbers_negative() {
    assert_eq!(eval("-6 / -2"), Ok(3));
}

#[test]
fn test_expression_with_multiple_operations_negative() {
    assert_eq!(eval("2 + 3 * -4 - 6 / 3"), Ok(-12));
}
