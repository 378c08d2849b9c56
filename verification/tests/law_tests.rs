use calc::eval;
use calc::lexer::lex;
use calc::parser::parse;
use calc::token::Token;

#[test]
fn division_truncates_toward_zero() {
    assert_eq!(eval("-7 / 2"), Ok(-3));
    assert_eq!(eval("7 / -2"), Ok(-3));
    assert_eq!(eval("-7 / -2"), Ok(3));
    assert_eq!(eval("7 / 2"), Ok(3));
}

#[test]
fn same_precedence_chains_group_to_the_left() {
    assert_eq!(eval("20 / 4 / 2"), Ok(2));
    assert_eq!(eval("10 - 3 - 4"), Ok(3));
    assert_eq!(eval("2 * 6 / 4"), Ok(3));
    assert_eq!(eval("1 - 2 + 3"), Ok(2));
}

#[test]
fn whitespace_between_tokens_is_ignored() {
    assert_eq!(eval(" 2 + 2 "), eval("2+2"));
    assert_eq!(eval("2\t+\n2"), Ok(4));
    assert_eq!(eval("  (2+3 ) *4 "), Ok(20));
}

#[test]
fn whitespace_inside_a_number_splits_it() {
    assert_eq!(eval("1 2"), Ok(1));
}

#[test]
fn reevaluating_the_same_tree_is_stable() {
    let toks = lex("2 + 3 * (4 - 1)").unwrap();
    let tree = parse(&toks).unwrap();
    let first = tree.eval();
    let second = tree.eval();
    let third = tree.eval();
    assert_eq!(first, Ok(11));
    assert_eq!(second, first);
    assert_eq!(third, first);
}

#[test]
fn lexer_keeps_token_order() {
    let toks = lex("(12+ 3)*40").unwrap();
    assert_eq!(
        toks,
        vec![
            Token::LParen,
            Token::Num(12),
            Token::Plus,
            Token::Num(3),
            Token::RParen,
            Token::Star,
            Token::Num(40),
        ]
    );
}

#[test]
fn parser_reports_position_after_expression() {
    let toks = lex("1 + 2) * 3").unwrap();
    let (_, pos) = calc::parser::add_sub(&toks, 0).unwrap();
    assert_eq!(pos, 3);
}

#[test]
fn factor_consumes_negated_literal() {
    let toks = lex("-5 * 2").unwrap();
    let (f, pos) = calc::parser::factor(&toks, 0).unwrap();
    assert_eq!(pos, 2);
    assert_eq!(f.eval(), Ok(-5));
}
