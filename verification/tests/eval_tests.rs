use maple::ast::{Expression, Statement, StatementBlock};
use maple::parser::{render_document, DocumentError};
use maple::visitor::{Builtin, EvalError, Value, Visitor};

fn last_binding(v: &Visitor, name: &str) -> Value {
    let mut found = None;
    for (n, val) in v.variables.iter() {
        if n == name {
            found = Some(val);
        }
    }
    match found.unwrap() {
        Value::Text(s) => Value::Text(s.clone()),
        Value::Number(b) => Value::Number(*b),
    }
}

#[test]
fn compound_assignment() {
    let mut v = Visitor::new();
    let out = render_document("={ x = 5; x += 5; }", &mut v).unwrap();
    assert_eq!(out, String::from(""));
    assert_eq!(last_binding(&v, "x"), Value::Number((10.0f64).to_bits()));
}

#[test]
fn all_compound_operators() {
    let mut v = Visitor::new();
    render_document("={ x = 9; x -= 4; x *= 2; x /= 5; }", &mut v).unwrap();
    assert_eq!(last_binding(&v, "x"), Value::Number((2.0f64).to_bits()));
}

#[test]
fn function_call_evaluation() {
    // First obtain the library's own sine and cosine values, then check
    // that the full expression combines them with IEEE arithmetic.
    let mut probe = Visitor::new();
    render_document("={ a = sin(8.0); b = cos(0); }", &mut probe).unwrap();
    let a = match last_binding(&probe, "a") {
        Value::Number(bits) => f64::from_bits(bits),
        _ => panic!("sine gave text"),
    };
    let b_bits = match last_binding(&probe, "b") {
        Value::Number(bits) => bits,
        _ => panic!("cosine gave text"),
    };
    assert_eq!(b_bits, (1.0f64).to_bits());

    let mut v = Visitor::new();
    v.assign_variable(String::from("x"), Value::Number((0.0f64).to_bits()));
    render_document("={ yep = 5 * sin(8.0) + cos(x); }", &mut v).unwrap();
    let expected = 5.0f64 * a + 1.0f64;
    assert_eq!(last_binding(&v, "yep"), Value::Number(expected.to_bits()));
}

#[test]
fn undefined_reference() {
    let mut v = Visitor::new();
    let err = render_document("=undefined_name", &mut v).unwrap_err();
    assert_eq!(
        err,
        DocumentError::Eval(EvalError::UndefinedVariable(String::from("undefined_name")))
    );
}

#[test]
fn document_round_trip() {
    let mut v = Visitor::new();
    v.assign_builtin(String::from("name"), Builtin::ConstText(String::from("World")));
    let out = render_document("Hello =name().", &mut v).unwrap();
    assert_eq!(out, String::from("Hello World."));
}

#[test]
fn undefined_function() {
    let mut v = Visitor::new();
    let err = render_document("=nope()", &mut v).unwrap_err();
    assert_eq!(
        err,
        DocumentError::Eval(EvalError::UndefinedFunction(String::from("nope")))
    );
}

#[test]
fn arity_mismatch() {
    let mut v = Visitor::new();
    let err = render_document("=sin()", &mut v).unwrap_err();
    assert_eq!(
        err,
        DocumentError::Eval(EvalError::ArityMismatch {
            name: String::from("sin"),
            expected: 1,
            got: 0,
        })
    );
}

#[test]
fn type_mismatch_on_subtraction() {
    let mut v = Visitor::new();
    v.assign_variable(String::from("t"), Value::Text(String::from("hi")));
    let err = render_document("={ y = t - 1; }", &mut v).unwrap_err();
    assert_eq!(
        err,
        DocumentError::Eval(EvalError::TypeMismatch { operation: String::from("-") })
    );
}

#[test]
fn compound_on_text_is_error() {
    let mut v = Visitor::new();
    v.assign_variable(String::from("t"), Value::Text(String::from("hi")));
    let err = render_document("={ t += 1; }", &mut v).unwrap_err();
    assert_eq!(
        err,
        DocumentError::Eval(EvalError::TypeMismatch { operation: String::from("+=") })
    );
}

#[test]
fn no_return_value() {
    let mut v = Visitor::new();
    let body = StatementBlock::new(vec![Box::new(Statement::Assign(
        String::from("z"),
        maple::ast::Assign::Eq,
        Box::new(Expression::Number((1.0f64).to_bits())),
    ))]);
    v.assign_function(String::from("f"), vec![], body);
    let err = render_document("=f()", &mut v).unwrap_err();
    assert_eq!(
        err,
        DocumentError::Eval(EvalError::NoReturnValue(String::from("f")))
    );
}

#[test]
fn recursion_limit() {
    let mut v = Visitor::new();
    let body = StatementBlock::new(vec![Box::new(Statement::Expression(Box::new(
        Expression::FunctionCall(String::from("f"), vec![]),
    )))]);
    v.assign_function(String::from("f"), vec![], body);
    let err = render_document("=f()", &mut v).unwrap_err();
    assert_eq!(err, DocumentError::Eval(EvalError::RecursionLimitExceeded));
}

#[test]
fn user_function_with_parameters() {
    let mut v = Visitor::new();
    // twice(n) returns n + n through its trailing expression statement.
    let body = StatementBlock::new(vec![Box::new(Statement::Expression(Box::new(
        Expression::BinaryOp(
            Box::new(Expression::Identifier(String::from("n"))),
            maple::ast::Binary::Add,
            Box::new(Expression::Identifier(String::from("n"))),
        ),
    )))]);
    v.assign_function(String::from("twice"), vec![String::from("n")], body);
    render_document("={ r = twice(21); }", &mut v).unwrap();
    assert_eq!(last_binding(&v, "r"), Value::Number((42.0f64).to_bits()));
}

#[test]
fn call_writes_do_not_escape() {
    let mut v = Visitor::new();
    // f() sets inner and returns it; the caller's variables keep only
    // what the caller itself bound.
    let body = StatementBlock::new(vec![
        Box::new(Statement::Assign(
            String::from("inner"),
            maple::ast::Assign::Eq,
            Box::new(Expression::Number((7.0f64).to_bits())),
        )),
        Box::new(Statement::Expression(Box::new(Expression::Identifier(
            String::from("inner"),
        )))),
    ]);
    v.assign_function(String::from("f"), vec![], body);
    render_document("={ r = f(); }", &mut v).unwrap();
    assert_eq!(last_binding(&v, "r"), Value::Number((7.0f64).to_bits()));
    assert!(!v.variables.iter().any(|(n, _)| n == "inner"));
}

#[test]
fn equality_yields_one_or_zero() {
    let mut v = Visitor::new();
    render_document("={ a = 2 == 2; b = 2 == 3; }", &mut v).unwrap();
    assert_eq!(last_binding(&v, "a"), Value::Number((1.0f64).to_bits()));
    assert_eq!(last_binding(&v, "b"), Value::Number((0.0f64).to_bits()));
}

#[test]
fn equality_across_kinds_is_zero() {
    let mut v = Visitor::new();
    v.assign_variable(String::from("t"), Value::Text(String::from("2")));
    render_document("={ a = t == 2; }", &mut v).unwrap();
    assert_eq!(last_binding(&v, "a"), Value::Number((0.0f64).to_bits()));
}

#[test]
fn division_by_zero_is_infinity() {
    let mut v = Visitor::new();
    render_document("={ x = 1 / 0; }", &mut v).unwrap();
    assert_eq!(last_binding(&v, "x"), Value::Number(f64::INFINITY.to_bits()));
}

#[test]
fn text_concatenation() {
    let mut v = Visitor::new();
    v.assign_variable(String::from("a"), Value::Text(String::from("foo")));
    v.assign_variable(String::from("b"), Value::Text(String::from("bar")));
    render_document("={ c = a + b; }", &mut v).unwrap();
    assert_eq!(last_binding(&v, "c"), Value::Text(String::from("foobar")));
}

#[test]
fn number_renders_into_text() {
    let mut v = Visitor::new();
    v.assign_variable(String::from("x"), Value::Number((42.0f64).to_bits()));
    let out = render_document("x is =x!", &mut v).unwrap();
    assert_eq!(out, String::from("x is 42!"));
}

#[test]
fn literal_splice_and_environment_thread() {
    let mut v = Visitor::new();
    v.assign_builtin(String::from("greet"), Builtin::ConstText(String::from("hi")));
    let out = render_document("={ x = 3; x += 1; }a =greet() b", &mut v).unwrap();
    assert_eq!(out, String::from("a hi b"));
    assert_eq!(last_binding(&v, "x"), Value::Number((4.0f64).to_bits()));
}

#[test]
fn nan_is_not_equal_to_itself() {
    let mut v = Visitor::new();
    render_document("={ n = 0 / 0; a = n == n; }", &mut v).unwrap();
    assert_eq!(last_binding(&v, "a"), Value::Number((0.0f64).to_bits()));
}

#[test]
fn text_and_number_concatenate() {
    let mut v = Visitor::new();
    v.assign_variable(String::from("a"), Value::Text(String::from("v=")));
    render_document("={ c = a + 42; d = 42 + a; }", &mut v).unwrap();
    assert_eq!(last_binding(&v, "c"), Value::Text(String::from("v=42")));
    assert_eq!(last_binding(&v, "d"), Value::Text(String::from("42v=")));
}

#[test]
fn scan_error_reaches_driver() {
    let mut v = Visitor::new();
    let err = render_document("={ x = 1;", &mut v).unwrap_err();
    assert_eq!(
        err,
        DocumentError::Scan(maple::parser::ScanError::UnterminatedBlock)
    );
}
