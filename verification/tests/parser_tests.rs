use ssa_emit::ast::{Expression, Operator, Statement, VarStatement};
use ssa_emit::parser::{parse, ParseError};

#[test]
fn test_parse_var() {
    let ast = parse("var x = 42;").unwrap();

    assert_eq!(ast.0.len(), 1);

    let statement = ast.0.first().unwrap();
    assert_eq!(
        statement,
        &Statement::Variable(VarStatement {
            name: String::from("x"),
            value: Box::new(Expression::Integer(42))
        })
    );
}

#[test]
fn test_error_recovery() {
    let expected = ParseError { position: 6, expected: String::from("\"=\"") };

    if let Err(error) = parse("var x != 42;") {
        assert_eq!(error, expected)
    } else {
        panic!("parse should fail");
    }
}

#[test]
fn multiplication_binds_tighter_than_addition() {
    let ast = parse("var x = 2 + 3 * 4;").unwrap();
    assert_eq!(ast.0.len(), 1);
    let expected = Statement::Variable(VarStatement {
        name: String::from("x"),
        value: Box::new(Expression::BinaryOperation {
            lhs: Box::new(Expression::Integer(2)),
            operator: Operator::Add,
            rhs: Box::new(Expression::BinaryOperation {
                lhs: Box::new(Expression::Integer(3)),
                operator: Operator::Mul,
                rhs: Box::new(Expression::Integer(4)),
            }),
        }),
    });
    assert_eq!(ast.0.first().unwrap(), &expected);
}

#[test]
fn parentheses_group_the_sum() {
    let ast = parse("var y = (1 + 2) * 3;").unwrap();
    let expected = Statement::Variable(VarStatement {
        name: String::from("y"),
        value: Box::new(Expression::BinaryOperation {
            lhs: Box::new(Expression::BinaryOperation {
                lhs: Box::new(Expression::Integer(1)),
                operator: Operator::Add,
                rhs: Box::new(Expression::Integer(2)),
            }),
            operator: Operator::Mul,
            rhs: Box::new(Expression::Integer(3)),
        }),
    });
    assert_eq!(ast.0.first().unwrap(), &expected);
}

#[test]
fn subtraction_groups_to_the_left() {
    let ast = parse("var d = 1 - 2 - 3;").unwrap();
    let expected = Statement::Variable(VarStatement {
        name: String::from("d"),
        value: Box::new(Expression::BinaryOperation {
            lhs: Box::new(Expression::BinaryOperation {
                lhs: Box::new(Expression::Integer(1)),
                operator: Operator::Sub,
                rhs: Box::new(Expression::Integer(2)),
            }),
            operator: Operator::Sub,
            rhs: Box::new(Expression::Integer(3)),
        }),
    });
    assert_eq!(ast.0.first().unwrap(), &expected);
}

#[test]
fn print_statement_parses() {
    let ast = parse("var x = 1; print x;").unwrap();
    assert_eq!(ast.0.len(), 2);
    match &ast.0[1] {
        Statement::Print(p) => {
            assert_eq!(*p.value, Expression::Variable(String::from("x")));
        }
        other => panic!("expected a print statement, got {:?}", other),
    }
}

#[test]
fn missing_expression_is_reported_at_the_semicolon() {
    let err = parse("var x = ;").unwrap_err();
    assert_eq!(err.position, 8);
    assert_eq!(err.expected, "an expression");
}

#[test]
fn oversized_integer_is_rejected() {
    let err = parse("print 99999999999999999999;").unwrap_err();
    assert_eq!(err.expected, "an integer that fits in 64 bits");
}

#[test]
fn empty_source_is_an_empty_program() {
    let ast = parse("").unwrap();
    assert_eq!(ast.0.len(), 0);
}
