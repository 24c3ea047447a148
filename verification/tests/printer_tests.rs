use rlox::ast_printer::AstPrinter;
use rlox::expression::{Binary, Expr, Grouping, Literal, Unary, VisitedElement};
use rlox::token::{Token, TokenType};

fn sample_tree() -> Expr {
    Expr::Binary(Binary::new(
        Box::new(Expr::Unary(Unary::new(
            Token::new(TokenType::Minus, "-".to_string(), "".to_string(), 1),
            Box::new(Expr::Literal(Literal::new(Some("123".to_string())))),
        ))),
        Token::new(TokenType::Star, "*".to_string(), "".to_string(), 1),
        Box::new(Expr::Grouping(Grouping::new(Box::new(Expr::Literal(Literal::new(
            Some("45.67".to_string()),
        )))))),
    ))
}

#[test]
fn prints_prefix_notation_round_trip() {
    let expr = sample_tree();
    let printer = AstPrinter::new();
    let rendered: String = expr.accept(printer);
    assert_eq!(rendered, "(* (- 123) (Group 45.67))");
}

#[test]
fn print_method_agrees_with_dispatch() {
    let expr = sample_tree();
    let printer = AstPrinter::new();
    let dispatched: String = expr.accept(printer);
    assert_eq!(printer.print(&expr), dispatched);
}

#[test]
fn absent_literal_renders_nil() {
    let expr = Expr::Literal(Literal::new(None));
    let printer = AstPrinter::new();
    let rendered: String = expr.accept(printer);
    assert_eq!(rendered, "nil");
}

#[test]
fn grouping_wraps_inner_rendering() {
    let expr = Expr::Grouping(Grouping::new(Box::new(Expr::Literal(Literal::new(Some(
        "7".to_string(),
    ))))));
    let printer = AstPrinter::new();
    let rendered: String = expr.accept(printer);
    assert_eq!(rendered, "(Group 7)");
}

#[test]
fn unary_prints_operator_then_operand() {
    let expr = Expr::Unary(Unary::new(
        Token::new(TokenType::Bang, "!".to_string(), "".to_string(), 1),
        Box::new(Expr::Literal(Literal::new(Some("true".to_string())))),
    ));
    let printer = AstPrinter::new();
    assert_eq!(printer.print(&expr), "(! true)");
}
