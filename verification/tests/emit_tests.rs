use cranelift::codegen::ir::Function;
use cranelift::codegen::isa;
use cranelift::codegen::settings;
use cranelift::module::default_libcall_names;
use cranelift::object::{ObjectBuilder, ObjectModule};
use cranelift::prelude::{FunctionBuilder, FunctionBuilderContext};

use ssa_emit::ast::{Expression, Operator, PrintStatement, Program, Statement, VarStatement};
use ssa_emit::emit::{EmitContext, EmitError, Emitter};

fn make_module() -> ObjectModule {
    let flag_builder = settings::builder();
    let isa = isa::lookup_by_name("x86_64-unknown-linux-gnu")
        .unwrap()
        .finish(settings::Flags::new(flag_builder))
        .unwrap();
    ObjectModule::new(ObjectBuilder::new(isa, "lowering", default_libcall_names()).unwrap())
}

fn num(n: i64) -> Box<Expression> {
    Box::new(Expression::Integer(n))
}

fn bin(lhs: Box<Expression>, operator: Operator, rhs: Box<Expression>) -> Box<Expression> {
    Box::new(Expression::BinaryOperation { lhs, operator, rhs })
}

fn var_stmt(name: &str, value: Box<Expression>) -> Statement {
    Statement::Variable(VarStatement { name: String::from(name), value })
}

fn print_stmt(value: Box<Expression>) -> Statement {
    Statement::Print(PrintStatement { value })
}

fn lower(program: &Program) -> (Result<(), EmitError>, String) {
    let mut module = make_module();
    let mut fbc = FunctionBuilderContext::new();
    let mut func = Function::new();
    let builder = FunctionBuilder::new(&mut func, &mut fbc);
    let mut ctx = EmitContext::new(&mut module, builder);
    let r = program.emit(&mut ctx).map(|_| ());
    drop(ctx);
    (r, format!("{}", func.display()))
}

/// `var x = 2 + 3 * 4; print x;` lowers to the constants 2, 3 and 4, the
/// multiply of 3 and 4, the add of 2 and that product, the definition and
/// read of x's slot, and the terminating return, in exactly that order.
#[test]
fn round_trip_precedence_program() {
    let program = Program(vec![
        var_stmt("x", bin(num(2), Operator::Add, bin(num(3), Operator::Mul, num(4)))),
        print_stmt(Box::new(Expression::Variable(String::from("x")))),
    ]);
    let (r, text) = lower(&program);
    assert!(r.is_ok());
    let c2 = text.find("v0 = iconst.i64 2").expect("constant 2");
    let c3 = text.find("v1 = iconst.i64 3").expect("constant 3");
    let c4 = text.find("v2 = iconst.i64 4").expect("constant 4");
    let mul = text.find("v3 = imul v1, v2").expect("multiply of 3 and 4");
    let add = text.find("v4 = iadd v0, v3").expect("add of 2 and the product");
    let ret = text.find("return").expect("terminating return");
    assert!(c2 < c3 && c3 < c4 && c4 < mul && mul < add && add < ret);
}

/// Left operand lowers strictly before the right one.
#[test]
fn binary_operands_lower_left_then_right() {
    let program = Program(vec![var_stmt("a", bin(num(7), Operator::Sub, num(5)))]);
    let (r, text) = lower(&program);
    assert!(r.is_ok());
    let left = text.find("v0 = iconst.i64 7").expect("left operand first");
    let right = text.find("v1 = iconst.i64 5").expect("right operand second");
    let sub = text.find("v2 = isub v0, v1").expect("subtract after both");
    assert!(left < right && right < sub);
}

#[test]
fn division_uses_signed_divide() {
    let program = Program(vec![var_stmt("q", bin(num(9), Operator::Div, num(3)))]);
    let (r, text) = lower(&program);
    assert!(r.is_ok());
    assert!(text.contains("sdiv"));
}

/// Referencing a name never declared fails with that name and leaves no
/// instruction behind for the reference.
#[test]
fn undeclared_reference_fails() {
    let program = Program(vec![print_stmt(Box::new(Expression::Variable(String::from("y"))))]);
    let (r, text) = lower(&program);
    assert_eq!(r, Err(EmitError::UnresolvedVariable(String::from("y"))));
    assert!(!text.contains("iconst"));
    assert!(!text.contains("return"));
}

/// Emission stops at the first unresolved reference; what stood before it
/// was already lowered.
#[test]
fn failure_keeps_earlier_statements() {
    let program = Program(vec![
        var_stmt("a", num(1)),
        print_stmt(Box::new(Expression::Variable(String::from("missing")))),
    ]);
    let (r, text) = lower(&program);
    assert_eq!(r, Err(EmitError::UnresolvedVariable(String::from("missing"))));
    assert!(text.contains("v0 = iconst.i64 1"));
    assert!(!text.contains("return"));
}

/// Declaring the same name twice rebinds it to a fresh slot, and resolution
/// afterwards yields the slot of the second declaration.
#[test]
fn redeclaration_rebinds_to_fresh_slot() {
    let mut module = make_module();
    let mut fbc = FunctionBuilderContext::new();
    let mut func = Function::new();
    let builder = FunctionBuilder::new(&mut func, &mut fbc);
    let mut ctx = EmitContext::new(&mut module, builder);
    let first = ctx.declare_var("x");
    let second = ctx.declare_var("x");
    assert_ne!(first, second);
    assert_eq!(ctx.get_variable("x"), Some(second));
    assert_eq!(ctx.get_variable("never"), None);
}

/// A reference emitted between two declarations of one name reads the first
/// slot; after the second declaration it reads the new slot.
#[test]
fn reference_before_redeclaration_uses_first_slot() {
    let program = Program(vec![
        var_stmt("x", num(1)),
        var_stmt("y", Box::new(Expression::Variable(String::from("x")))),
        var_stmt("x", num(2)),
        var_stmt("z", Box::new(Expression::Variable(String::from("x")))),
    ]);
    let (r, text) = lower(&program);
    assert!(r.is_ok());
    // the read of x between the declarations reuses v0, so the second
    // binding's constant is the next fresh value, v1
    let first = text.find("v0 = iconst.i64 1").expect("first binding of x");
    let second = text.find("v1 = iconst.i64 2").expect("second binding of x");
    assert!(first < second);
}

/// An empty program still produces one block terminated by a return.
#[test]
fn empty_program_emits_only_return() {
    let program = Program(vec![]);
    let (r, text) = lower(&program);
    assert!(r.is_ok());
    assert!(text.contains("block0"));
    assert!(text.contains("return"));
    assert!(!text.contains("iconst"));
}

/// Lowering the identical program through two independent contexts produces
/// the same instruction sequence.
#[test]
fn emission_is_reproducible() {
    let program = Program(vec![
        var_stmt("x", bin(num(2), Operator::Add, bin(num(3), Operator::Mul, num(4)))),
        print_stmt(Box::new(Expression::Variable(String::from("x")))),
    ]);
    let (r1, text1) = lower(&program);
    let (r2, text2) = lower(&program);
    assert!(r1.is_ok() && r2.is_ok());
    assert_eq!(text1, text2);
}
