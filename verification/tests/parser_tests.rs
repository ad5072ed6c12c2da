use jlox::expr::BinaryOp;
use jlox::expr::Expr;
use jlox::expr::Literal as ExprLiteral;
use jlox::expr::UnaryOp;
use jlox::lox::Lox;
use jlox::parser::Parser;
use jlox::scanner::Scanner;
use jlox::scanner::Token;

fn parse_source(source: &str) -> (Option<Expr>, Parser) {
    let mut scanner = Scanner::new(Lox::new(), source);
    let tokens = scanner.scan_tokens();
    let mut parser = Parser::new(Lox::new(), tokens);
    let result = parser.parse();
    (result, parser)
}

fn num(text: &str) -> Expr {
    Expr::Literal(ExprLiteral::Number(String::from(text)))
}

fn binary(left: Expr, op: BinaryOp, right: Expr) -> Expr {
    Expr::Binary(Box::new(left), op, Box::new(right))
}

#[test]
fn multiplication_binds_tighter_than_addition() {
    // parse(scan("1 + 2 * 3")) == Binary(1, Plus, Binary(2, Star, 3)).
    let (result, _) = parse_source("1 + 2 * 3");
    let expected = binary(num("1"), BinaryOp::Plus, binary(num("2"), BinaryOp::Star, num("3")));
    assert_eq!(result, Some(expected));
}

#[test]
fn equality_chain_is_left_associative() {
    // parse(scan("1 == 1 == 1")) == Binary(Binary(1, ==, 1), ==, 1).
    let (result, _) = parse_source("1 == 1 == 1");
    let expected = binary(
        binary(num("1"), BinaryOp::EqualEqual, num("1")),
        BinaryOp::EqualEqual,
        num("1"),
    );
    assert_eq!(result, Some(expected));
}

#[test]
fn comparison_chain_is_left_associative() {
    let (result, _) = parse_source("1 < 2 < 3");
    let expected = binary(binary(num("1"), BinaryOp::Less, num("2")), BinaryOp::Less, num("3"));
    assert_eq!(result, Some(expected));
}

#[test]
fn missing_close_paren_fails_with_one_diagnostic() {
    // parse(scan("(1 + 2")) yields a failure and exactly one diagnostic
    // mentioning ')'.
    let (result, parser) = parse_source("(1 + 2");
    assert_eq!(result, None);
    assert_eq!(parser.lox.diagnostics.len(), 1);
    assert!(parser.lox.diagnostics[0].message.contains(")"));
    assert_eq!(parser.lox.diagnostics[0].message, "Expect ')' after expression.");
    assert_eq!(parser.lox.diagnostics[0].context, " at end");
}

#[test]
fn successful_parse_reports_nothing() {
    let (result, parser) = parse_source("(1 + 2) * 3");
    assert!(result.is_some());
    assert!(parser.lox.diagnostics.is_empty());
}

#[test]
fn grouping_node_is_kept() {
    let (result, _) = parse_source("(1)");
    let expected = Expr::Grouping(Box::new(num("1")));
    assert_eq!(result, Some(expected));
}

#[test]
fn unary_operators_nest() {
    let (result, _) = parse_source("--1");
    let expected = Expr::Unary(
        UnaryOp::Minus,
        Box::new(Expr::Unary(UnaryOp::Minus, Box::new(num("1")))),
    );
    assert_eq!(result, Some(expected));

    let (result, _) = parse_source("!true");
    let expected = Expr::Unary(UnaryOp::Bang, Box::new(Expr::Literal(ExprLiteral::True)));
    assert_eq!(result, Some(expected));
}

#[test]
fn keyword_and_string_literals_parse() {
    let (result, _) = parse_source("nil");
    assert_eq!(result, Some(Expr::Literal(ExprLiteral::Nil)));
    let (result, _) = parse_source("false");
    assert_eq!(result, Some(Expr::Literal(ExprLiteral::False)));
    let (result, _) = parse_source("\"hi\"");
    assert_eq!(result, Some(Expr::Literal(ExprLiteral::String(String::from("hi")))));
}

#[test]
fn no_primary_match_reports_expect_expression() {
    let (result, parser) = parse_source("+");
    assert_eq!(result, None);
    assert_eq!(parser.lox.diagnostics.len(), 1);
    assert_eq!(parser.lox.diagnostics[0].message, "Expect expression.");
    assert_eq!(parser.lox.diagnostics[0].context, " at '+'");
}

#[test]
fn failure_at_end_of_input_says_at_end() {
    let (result, parser) = parse_source("1 +");
    assert_eq!(result, None);
    assert_eq!(parser.lox.diagnostics.len(), 1);
    assert_eq!(parser.lox.diagnostics[0].context, " at end");
}

#[test]
fn trailing_tokens_are_not_consumed() {
    let (result, parser) = parse_source("1 2");
    assert_eq!(result, Some(num("1")));
    assert!(parser.lox.diagnostics.is_empty());
    // The cursor stands on the unconsumed second number.
    assert_eq!(parser.current, 1);
}

#[test]
fn synchronize_skips_past_semicolon() {
    let mut scanner = Scanner::new(Lox::new(), "1 ; 2");
    let tokens: Vec<Token> = scanner.scan_tokens();
    let mut parser = Parser::new(Lox::new(), tokens);
    parser.synchronize();
    assert_eq!(parser.current, 2);
}

#[test]
fn synchronize_stops_before_statement_keyword() {
    let mut scanner = Scanner::new(Lox::new(), "1 2 var x");
    let tokens: Vec<Token> = scanner.scan_tokens();
    let mut parser = Parser::new(Lox::new(), tokens);
    parser.synchronize();
    assert_eq!(parser.current, 2);
}

#[test]
fn synchronize_runs_to_end_without_boundary() {
    let mut scanner = Scanner::new(Lox::new(), "1 2 3");
    let tokens: Vec<Token> = scanner.scan_tokens();
    let n = tokens.len();
    let mut parser = Parser::new(Lox::new(), tokens);
    parser.synchronize();
    assert_eq!(parser.current, n - 1);
}
