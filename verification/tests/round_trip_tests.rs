use jlox::expr::BinaryOp;
use jlox::expr::Expr;
use jlox::expr::Literal as ExprLiteral;
use jlox::expr::UnaryOp;
use jlox::lox::Lox;
use jlox::parser::Parser;
use jlox::scanner::Scanner;

fn parse_source(source: &str) -> Option<Expr> {
    let mut scanner = Scanner::new(Lox::new(), source);
    let tokens = scanner.scan_tokens();
    assert!(scanner.lox.diagnostics.is_empty(), "lexing {:?} reported", source);
    let mut parser = Parser::new(Lox::new(), tokens);
    parser.parse()
}

fn assert_round_trip(source: &str) {
    let first = parse_source(source).expect("first parse failed");
    let printed = first.to_source();
    let second = parse_source(&printed).expect("reparse failed");
    assert_eq!(first, second, "round trip changed the tree for {:?}", source);
}

#[test]
fn reparsing_printed_trees_is_identity() {
    // Re-parsing the printed form of a successfully parsed tree yields a
    // structurally identical tree.
    assert_round_trip("1 + 2 * 3");
    assert_round_trip("(1 + 2) * 3");
    assert_round_trip("!true");
    assert_round_trip("-(4.5)");
    assert_round_trip("\"hi\" == \"ho\"");
    assert_round_trip("1 == 1 == 1");
    assert_round_trip("nil");
    assert_round_trip("--1");
    assert_round_trip("1 < 2 < 3");
    assert_round_trip("((false))");
}

#[test]
fn printer_emits_expected_text() {
    let tree = Expr::Binary(
        Box::new(Expr::Literal(ExprLiteral::Number(String::from("1")))),
        BinaryOp::Plus,
        Box::new(Expr::Grouping(Box::new(Expr::Unary(
            UnaryOp::Bang,
            Box::new(Expr::Literal(ExprLiteral::True)),
        )))),
    );
    assert_eq!(tree.to_source(), "1 + (!true)");
}

#[test]
fn printer_quotes_string_literals() {
    let tree = Expr::Literal(ExprLiteral::String(String::from("ab")));
    assert_eq!(tree.to_source(), "\"ab\"");
}
