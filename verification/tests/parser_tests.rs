use monkey_interpreter::ast::{
    Block, Expression, Identifier, InfixOperator, LetStatement, PrefixOperator, Program, Statement,
};
use monkey_interpreter::lexer::Lexer;
use monkey_interpreter::parser::{ParseError, Parser, TokenKind};
use monkey_interpreter::token::Token;

fn parse(src: &str) -> Program {
    let lexer = Lexer::new(src.to_string());
    let mut parser = Parser::new(lexer).unwrap();
    parser.parse_program().unwrap()
}

fn parse_errors(src: &str) -> Vec<ParseError> {
    let lexer = Lexer::new(src.to_string());
    let mut parser = Parser::new(lexer).unwrap();
    parser.parse_program().unwrap_err()
}

fn ident(name: &str) -> Expression {
    Expression::Identifier(Identifier { value: name.to_string() })
}

fn infix(op: InfixOperator, left: Expression, right: Expression) -> Expression {
    Expression::InfixExpression { operator: op, left: Box::new(left), right: Box::new(right) }
}

fn expr_stmt(value: Expression) -> Statement {
    Statement::ExpressionStatement { value }
}

fn single_expression(src: &str) -> Expression {
    let program = parse(src);
    assert_eq!(program.statements.len(), 1);
    match program.statements.into_iter().next().unwrap() {
        Statement::ExpressionStatement { value } => value,
        other => panic!("expected an expression statement, got {:?}", other),
    }
}

#[test]
fn precedence_product_binds_tighter_on_the_right() {
    let e = single_expression("a + b * c");
    assert_eq!(
        e,
        infix(
            InfixOperator::Plus,
            ident("a"),
            infix(InfixOperator::Asterisk, ident("b"), ident("c")),
        ),
    );
}

#[test]
fn precedence_product_binds_tighter_on_the_left() {
    let e = single_expression("a * b + c");
    assert_eq!(
        e,
        infix(
            InfixOperator::Plus,
            infix(InfixOperator::Asterisk, ident("a"), ident("b")),
            ident("c"),
        ),
    );
}

#[test]
fn subtraction_is_left_associative() {
    let e = single_expression("a - b - c");
    assert_eq!(
        e,
        infix(
            InfixOperator::Minus,
            infix(InfixOperator::Minus, ident("a"), ident("b")),
            ident("c"),
        ),
    );
}

#[test]
fn grouping_overrides_precedence() {
    let e = single_expression("(a + b) * c");
    assert_eq!(
        e,
        infix(
            InfixOperator::Asterisk,
            infix(InfixOperator::Plus, ident("a"), ident("b")),
            ident("c"),
        ),
    );
}

#[test]
fn let_statement_round_trip() {
    let program = parse("let x = 5;");
    assert_eq!(
        program.statements,
        vec![Statement::Let(LetStatement {
            name: Identifier { value: "x".to_string() },
            value: Expression::IntegerLiteral(5),
        })],
    );
}

#[test]
fn if_else_expression_scenario() {
    let e = single_expression("if (x < y) { x } else { y }");
    assert_eq!(
        e,
        Expression::IfExpression {
            condition: Box::new(infix(InfixOperator::Lt, ident("x"), ident("y"))),
            consequence: Block { statements: vec![expr_stmt(ident("x"))] },
            alternative: Some(Block { statements: vec![expr_stmt(ident("y"))] }),
        },
    );
}

#[test]
fn if_without_else_has_no_alternative() {
    let e = single_expression("if (x) { y }");
    assert_eq!(
        e,
        Expression::IfExpression {
            condition: Box::new(ident("x")),
            consequence: Block { statements: vec![expr_stmt(ident("y"))] },
            alternative: None,
        },
    );
}

#[test]
fn function_literal_scenario() {
    let e = single_expression("fn(x, y) { x + y; }");
    assert_eq!(
        e,
        Expression::FunctionLiteral {
            parameters: vec![
                Identifier { value: "x".to_string() },
                Identifier { value: "y".to_string() },
            ],
            body: Block {
                statements: vec![expr_stmt(infix(InfixOperator::Plus, ident("x"), ident("y")))],
            },
        },
    );
}

#[test]
fn function_literal_with_no_parameters() {
    let e = single_expression("fn() { 1; }");
    assert_eq!(
        e,
        Expression::FunctionLiteral {
            parameters: vec![],
            body: Block { statements: vec![expr_stmt(Expression::IntegerLiteral(1))] },
        },
    );
}

#[test]
fn call_expression_scenario() {
    let e = single_expression("add(1, 2 * 3)");
    assert_eq!(
        e,
        Expression::CallExpression {
            function: Box::new(ident("add")),
            arguments: vec![
                Expression::IntegerLiteral(1),
                infix(
                    InfixOperator::Asterisk,
                    Expression::IntegerLiteral(2),
                    Expression::IntegerLiteral(3),
                ),
            ],
        },
    );
}

#[test]
fn call_with_no_arguments() {
    let e = single_expression("run()");
    assert_eq!(
        e,
        Expression::CallExpression { function: Box::new(ident("run")), arguments: vec![] },
    );
}

#[test]
fn prefix_operators_scenario() {
    let e = single_expression("!true");
    assert_eq!(
        e,
        Expression::PrefixExpression {
            operator: PrefixOperator::Not,
            operand: Box::new(Expression::BooleanLiteral(true)),
        },
    );

    let e2 = single_expression("-15;");
    assert_eq!(
        e2,
        Expression::PrefixExpression {
            operator: PrefixOperator::Neg,
            operand: Box::new(Expression::IntegerLiteral(15)),
        },
    );
}

#[test]
fn return_statement_scenario() {
    let program = parse("return 2 + 3;");
    assert_eq!(
        program.statements,
        vec![Statement::Return {
            value: infix(
                InfixOperator::Plus,
                Expression::IntegerLiteral(2),
                Expression::IntegerLiteral(3),
            ),
        }],
    );
}

#[test]
fn several_statements_in_order() {
    let program = parse("let a = 1; let b = 2; a + b");
    assert_eq!(program.statements.len(), 3);
    assert_eq!(
        program.statements[2],
        expr_stmt(infix(InfixOperator::Plus, ident("a"), ident("b"))),
    );
}

#[test]
fn missing_assign_reports_expected_token() {
    let errors = parse_errors("let x 5;");
    assert!(errors.iter().any(|e| matches!(
        e,
        ParseError::UnexpectedToken { expected: TokenKind::Assign, actual: Token::Int(text) }
            if text == "5"
    )));
}

#[test]
fn illegal_byte_reports_illegal_character() {
    let errors = parse_errors("5 + @");
    assert_eq!(errors, vec![ParseError::IllegalCharacter(b'@')]);
}

#[test]
fn parser_construction_fails_on_leading_illegal_byte() {
    let lexer = Lexer::new("@".to_string());
    match Parser::new(lexer) {
        Err(e) => assert_eq!(e.0, b'@'),
        Ok(_) => panic!("expected a lexing failure"),
    }
}

#[test]
fn token_without_prefix_rule_is_an_error() {
    let errors = parse_errors("let x = ;");
    assert!(errors.iter().any(|e| matches!(
        e,
        ParseError::NoPrefixRule { actual: Token::Semicolon }
    )));
}

#[test]
fn oversized_integer_literal_is_an_error() {
    let errors = parse_errors("18446744073709551616");
    assert!(errors.iter().any(|e| matches!(
        e,
        ParseError::IntegerOverflow { text } if text == "18446744073709551616"
    )));

    let program = parse("18446744073709551615");
    assert_eq!(
        program.statements,
        vec![expr_stmt(Expression::IntegerLiteral(u64::MAX))],
    );
}

#[test]
fn unclosed_block_is_an_error() {
    let errors = parse_errors("if (x) { y");
    assert!(errors.iter().any(|e| matches!(
        e,
        ParseError::UnexpectedToken { expected: TokenKind::Rbrace, actual: Token::Eof }
    )));
}

#[test]
fn errors_from_several_statements_are_collected() {
    let errors = parse_errors("let x 5; let 7; z");
    assert!(errors.len() >= 2);
}

#[test]
fn missing_closing_parenthesis_is_an_error() {
    let errors = parse_errors("(1 + 2");
    assert!(errors.iter().any(|e| matches!(
        e,
        ParseError::UnexpectedToken { expected: TokenKind::Rparen, actual: Token::Eof }
    )));
}

#[test]
fn comparison_binds_looser_than_sum() {
    let e = single_expression("a + b < c + d");
    assert_eq!(
        e,
        infix(
            InfixOperator::Lt,
            infix(InfixOperator::Plus, ident("a"), ident("b")),
            infix(InfixOperator::Plus, ident("c"), ident("d")),
        ),
    );
}

#[test]
fn equality_binds_loosest() {
    let e = single_expression("a < b == c > d");
    assert_eq!(
        e,
        infix(
            InfixOperator::Eq,
            infix(InfixOperator::Lt, ident("a"), ident("b")),
            infix(InfixOperator::Gt, ident("c"), ident("d")),
        ),
    );
}

#[test]
fn call_binds_tightest() {
    let e = single_expression("-a * f(b) + c");
    assert_eq!(
        e,
        infix(
            InfixOperator::Plus,
            infix(
                InfixOperator::Asterisk,
                Expression::PrefixExpression {
                    operator: PrefixOperator::Neg,
                    operand: Box::new(ident("a")),
                },
                Expression::CallExpression {
                    function: Box::new(ident("f")),
                    arguments: vec![ident("b")],
                },
            ),
            ident("c"),
        ),
    );
}
