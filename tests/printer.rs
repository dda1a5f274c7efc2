use loxrs::expr::{Binary, Expr, Grouping, Literal, Unary};
use loxrs::printer::{parenthesize, AstPrinter};
use loxrs::token::{Token, TokenType};

fn number(text: &str) -> Expr {
    Expr::Literal(Literal {
        value: Token::new(TokenType::Number(String::from(text)), String::from(text), 1),
    })
}

#[test]
fn test_book_example() {
    let expression = Expr::Binary(Binary {
        left: Box::new(Expr::Unary(Unary {
            operator: Token::new(TokenType::Minus, String::from("-"), 1),
            right: Box::new(Expr::Literal(Literal {
                value: Token::new(TokenType::Number(String::from("123")), String::from("123"), 1),
            })),
        })),
        operator: Token::new(TokenType::Star, String::from("*"), 1),
        right: Box::new(Expr::Grouping(Grouping {
            expr: Box::new(Expr::Literal(Literal {
                value: Token::new(TokenType::Number(String::from("45.67")), String::from("45.67"), 1),
            })),
        })),
    });

    let ast_printer = AstPrinter;
    let actual = ast_printer.print(expression);
    assert_eq!(actual, "(* (- 123) (group 45.67))");
}

#[test]
fn literal_prints_its_lexeme() {
    assert_eq!(AstPrinter.print(number("45")), "45");
}

#[test]
fn nested_groups_print_inside_out() {
    let e = Expr::Grouping(Grouping { expr: Box::new(Expr::Grouping(Grouping { expr: Box::new(number("7")) })) });
    assert_eq!(AstPrinter.print(e), "(group (group 7))");
}

#[test]
fn accept_dispatches_to_the_variant() {
    let e = Expr::Unary(Unary {
        operator: Token::new(TokenType::Bang, String::from("!"), 3),
        right: Box::new(number("0")),
    });
    assert_eq!(e.accept(&AstPrinter), "(! 0)");
}

#[test]
fn parenthesize_joins_with_spaces() {
    let a = number("1");
    let b = number("2");
    assert_eq!(parenthesize("+", &[&a, &b]), "(+ 1 2)");
    assert_eq!(parenthesize("nothing", &[]), "(nothing)");
}
