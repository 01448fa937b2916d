use rlox::num::Num;
use rlox::parser::{ParseError, Parser};
use rlox::scanner::{LiteralValue, Scanner, Token, TokenType};

fn number_token(text: &str, mag: u128) -> Token {
    Token::new(
        TokenType::Number,
        text.to_string(),
        Some(LiteralValue::NumberValue { mag }),
        0,
    )
}

fn bare_token(token_type: TokenType, text: &str) -> Token {
    Token::new(token_type, text.to_string(), None, 0)
}

#[test]
fn test_addition() {
    let one = number_token("1", 1_000_000);
    let plus = bare_token(TokenType::Plus, "+");
    let two = number_token("2", 2_000_000);
    let semicol = bare_token(TokenType::Semicolon, ";");
    let eof = bare_token(TokenType::Eof, "");

    let tokens = vec![one, plus, two, semicol, eof];
    let mut parser = Parser::new(tokens);

    let parsed_expr = parser.expression().unwrap();
    let string_expr = parsed_expr.to_string();

    assert_eq!(string_expr, "(+ 1 2)");
}

#[test]
fn test_comparison() {
    let source = "1 + 2 == 5 + 7";
    let mut scanner = Scanner::new(source);
    let tokens = scanner.scan_tokens().unwrap();

    let mut parser = Parser::new(tokens);
    let parsed_expr = parser.expression().unwrap();

    let string_expr = parsed_expr.to_string();

    assert_eq!(string_expr, "(== (+ 1 2) (+ 5 7))");
}

#[test]
fn test_eq_with_paren() {
    let source = "1 == (5 + 7)";
    let mut scanner = Scanner::new(source);
    let tokens = scanner.scan_tokens().unwrap();

    let mut parser = Parser::new(tokens);
    let parsed_expr = parser.expression().unwrap();
    let string_expr = parsed_expr.to_string();

    assert_eq!(string_expr, "(== 1 (group (+ 5 7)))");
}

#[test]
fn pretty_print_ast() {
    let minus_token = bare_token(TokenType::Minus, "-");
    let onetwothree = rlox::expr::Expr::Literal {
        value: rlox::expr::LiteralValue::Number(Num::Finite {
            neg: false,
            mag: 123_000_000,
        }),
    };
    let group = rlox::expr::Expr::Grouping {
        expression: Box::from(rlox::expr::Expr::Literal {
            value: rlox::expr::LiteralValue::Number(Num::Finite {
                neg: false,
                mag: 45_670_000,
            }),
        }),
    };
    let multi = bare_token(TokenType::Star, "*");
    let ast = rlox::expr::Expr::Binary {
        left: Box::from(rlox::expr::Expr::Unary {
            operator: minus_token,
            right: Box::from(onetwothree),
        }),
        operator: multi,
        right: Box::from(group),
    };

    let result = ast.to_string();
    assert_eq!(result, "(* (- 123) (group 45.67))");
}

#[test]
fn unary_and_grouping_pretty_print() {
    let mut scanner = Scanner::new("-123 * (45.67)");
    let tokens = scanner.scan_tokens().unwrap();
    let mut parser = Parser::new(tokens);
    let expr = parser.expression().unwrap();
    assert_eq!(expr.to_string(), "(* (- 123) (group 45.67))");
}

#[test]
fn two_malformed_statements_give_two_errors() {
    let mut scanner = Scanner::new("+ ;\n* ;");
    let tokens = scanner.scan_tokens().unwrap();
    let mut parser = Parser::new(tokens);
    let errs = parser.parse().unwrap_err();
    assert_eq!(errs.len(), 2);
    assert!(matches!(errs[0], ParseError::ExpectedExpression { .. }));
    assert!(matches!(errs[1], ParseError::ExpectedExpression { .. }));
}

#[test]
fn invalid_assignment_target() {
    let mut scanner = Scanner::new("1 = 2;");
    let tokens = scanner.scan_tokens().unwrap();
    let mut parser = Parser::new(tokens);
    let errs = parser.parse().unwrap_err();
    assert_eq!(errs.len(), 1);
    assert!(matches!(errs[0], ParseError::InvalidAssignmentTarget { .. }));
}

#[test]
fn missing_semicolon_is_reported() {
    let mut scanner = Scanner::new("print 1");
    let tokens = scanner.scan_tokens().unwrap();
    let mut parser = Parser::new(tokens);
    let errs = parser.parse().unwrap_err();
    assert_eq!(errs.len(), 1);
    match &errs[0] {
        ParseError::Missing { what, .. } => assert_eq!(what, "Expect ';' after value."),
        _ => panic!("expected a missing-token error"),
    }
}

#[test]
fn var_declaration_without_initializer_parses() {
    let mut scanner = Scanner::new("var a;");
    let tokens = scanner.scan_tokens().unwrap();
    let mut parser = Parser::new(tokens);
    let stmts = parser.parse().unwrap();
    assert_eq!(stmts.len(), 1);
    assert!(matches!(stmts[0], rlox::stmt::Stmt::Var { .. }));
}

#[test]
fn error_recovery_keeps_good_statements() {
    let mut scanner = Scanner::new("var x = 1; + ; print x;");
    let tokens = scanner.scan_tokens().unwrap();
    let mut parser = Parser::new(tokens);
    let errs = parser.parse().unwrap_err();
    assert_eq!(errs.len(), 1);
}

#[test]
fn assignment_is_right_associative() {
    let mut scanner = Scanner::new("a = b = 1");
    let tokens = scanner.scan_tokens().unwrap();
    let mut parser = Parser::new(tokens);
    let expr = parser.expression().unwrap();
    assert_eq!(expr.to_string(), "(= a (= b 1))");
}
