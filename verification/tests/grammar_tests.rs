use maple::ast::{Assign, Binary, Expression, Statement, StatementBlock};
use maple::grammar::{parse_expression, parse_statement, parse_statement_block};

#[test]
fn expression() {
    let src = "4.0 + (10.3 * x) / 2.5;";
    let parsed = parse_statement(src).unwrap();

    let expected = Statement::Expression(Box::new(Expression::BinaryOp(
        Box::new(Expression::Number((4.0f64).to_bits())),
        Binary::Add,
        Box::new(Expression::BinaryOp(
            Box::new(Expression::BinaryOp(
                Box::new(Expression::Number((10.3f64).to_bits())),
                Binary::Mul,
                Box::new(Expression::Identifier(String::from("x"))),
            )),
            Binary::Div,
            Box::new(Expression::Number((2.5f64).to_bits())),
        )),
    )));

    assert_eq!(parsed, expected);
}

#[test]
fn statement_expression() {
    let src = "4 + 5;";
    let parsed = parse_statement(src).unwrap();

    let expected = Statement::Expression(Box::new(Expression::BinaryOp(
        Box::new(Expression::Number((4.0f64).to_bits())),
        Binary::Add,
        Box::new(Expression::Number((5.0f64).to_bits())),
    )));

    assert_eq!(parsed, expected);
}

#[test]
fn statement_assign() {
    let src = "x = 4 + 5;";
    let parsed = parse_statement(src).unwrap();

    let expected = Statement::Assign(
        String::from("x"),
        Assign::Eq,
        Box::new(Expression::BinaryOp(
            Box::new(Expression::Number((4.0f64).to_bits())),
            Binary::Add,
            Box::new(Expression::Number((5.0f64).to_bits())),
        )),
    );

    assert_eq!(parsed, expected);
}

#[test]
fn statement_block() {
    let src = "={ x = 5; x += 5; }";
    let parsed = parse_statement_block(src).unwrap();

    let expected = StatementBlock::new(vec![
        Box::new(Statement::Assign(
            String::from("x"),
            Assign::Eq,
            Box::new(Expression::Number((5.0f64).to_bits())),
        )),
        Box::new(Statement::Assign(
            String::from("x"),
            Assign::Add,
            Box::new(Expression::Number((5.0f64).to_bits())),
        )),
    ]);

    assert_eq!(parsed, expected);
}

#[test]
fn expression_function_call() {
    let src = "yep = 5 * sin(8.0) + cos(x);";
    let parsed = parse_statement(src).unwrap();

    let expected = Statement::Assign(
        String::from("yep"),
        Assign::Eq,
        Box::new(Expression::BinaryOp(
            Box::new(Expression::BinaryOp(
                Box::new(Expression::Number((5.0f64).to_bits())),
                Binary::Mul,
                Box::new(Expression::FunctionCall(
                    String::from("sin"),
                    vec![Box::new(Expression::Number((8.0f64).to_bits()))],
                )),
            )),
            Binary::Add,
            Box::new(Expression::FunctionCall(
                String::from("cos"),
                vec![Box::new(Expression::Identifier(String::from("x")))],
            )),
        )),
    );

    assert_eq!(parsed, expected);
}

#[test]
fn expression_whole_span() {
    let parsed = parse_expression("1 + 2 * 3").unwrap();
    let expected = Expression::BinaryOp(
        Box::new(Expression::Number((1.0f64).to_bits())),
        Binary::Add,
        Box::new(Expression::BinaryOp(
            Box::new(Expression::Number((2.0f64).to_bits())),
            Binary::Mul,
            Box::new(Expression::Number((3.0f64).to_bits())),
        )),
    );
    assert_eq!(parsed, expected);
}

#[test]
fn equality_is_lowest() {
    let parsed = parse_expression("1 + 1 == 2").unwrap();
    let expected = Expression::BinaryOp(
        Box::new(Expression::BinaryOp(
            Box::new(Expression::Number((1.0f64).to_bits())),
            Binary::Add,
            Box::new(Expression::Number((1.0f64).to_bits())),
        )),
        Binary::Eq,
        Box::new(Expression::Number((2.0f64).to_bits())),
    );
    assert_eq!(parsed, expected);
}

#[test]
fn syntax_error_position() {
    let err = parse_statement("x = ;").unwrap_err();
    assert_eq!(err.position, 4);
}

#[test]
fn missing_semicolon_is_error() {
    assert!(parse_statement("x = 4").is_err());
}

#[test]
fn numeral_parses_exactly() {
    let parsed = parse_expression("10.5").unwrap();
    assert_eq!(parsed, Expression::Number((10.5f64).to_bits()));
}
