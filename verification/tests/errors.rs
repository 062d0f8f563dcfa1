use compiler::ast::{BinaryOp, UnaryOp};
use compiler::comptime::{self, Limits};
use compiler::floats::{FloatAnswer, FloatOp};
use compiler::lexer::Span;
use compiler::mir::{MirError, MirProgram};
use compiler::ops;
use compiler::parser::ParseError;
use compiler::pipeline::{self, FrontendError};
use compiler::semantic::{self, SemanticError};
use compiler::typed::{IntegerWidth, ResolvedType, TypedExpr, TypedStmt};
use compiler::typed_eval;

/// What the machine's floating-point numbers answer.
fn floats(op: FloatOp, a: String, b: String) -> FloatAnswer {
    let x: f64 = a.parse().unwrap_or(f64::NAN);
    let y: f64 = b.parse().unwrap_or(f64::NAN);
    let (value, truth) = match op {
        FloatOp::Canonical => (x, false),
        FloatOp::Add => (x + y, false),
        FloatOp::Subtract => (x - y, false),
        FloatOp::Multiply => (x * y, false),
        FloatOp::Divide => (x / y, false),
        FloatOp::Modulo => (x % y, false),
        FloatOp::Equal => (x, x == y),
        FloatOp::NotEqual => (x, x != y),
        FloatOp::Less => (x, x < y),
        FloatOp::LessEqual => (x, x <= y),
        FloatOp::Greater => (x, x > y),
        FloatOp::GreaterEqual => (x, x >= y),
    };
    FloatAnswer {
        number: format!("{value}"),
        truth,
    }
}

fn parse_error(source: &str) -> ParseError {
    match pipeline::parse_source(source) {
        Err(FrontendError::Parser(error)) => error,
        other => panic!("{other:?}"),
    }
}

fn semantic_error(source: &str) -> SemanticError {
    match pipeline::analyze_source(source, &floats) {
        Err(FrontendError::Semantic(error)) => error,
        other => panic!("{other:?}"),
    }
}

fn comptime_error(source: &str) -> comptime::Error {
    match pipeline::analyze_source(source, &floats) {
        Err(FrontendError::Comptime(error)) => error,
        other => panic!("{other:?}"),
    }
}

fn body(statements: &str) -> String {
    format!("main :: () -> i32 {{ {statements} return 0; }}")
}

#[test]
fn every_parse_error_has_an_input() {
    let error = parse_error("main :: () -> i32 { x := ; }");
    assert!(matches!(error, ParseError::UnexpectedToken { .. }));
    assert_eq!(
        parse_error("main :: () {").to_string(),
        "expected RBrace, found end of file at 12..12"
    );
    assert!(matches!(
        parse_error("x :: 99999999999999999999999999999999999999999;"),
        ParseError::InvalidInteger { .. }
    ));
    assert!(matches!(
        parse_error("main :: () { 1 = 2; }"),
        ParseError::InvalidAssignmentTarget { .. }
    ));
    assert_eq!(
        parse_error("extern \"c\" f(...) -> i32;").to_string(),
        "variadic foreign functions are not implemented at 13..16"
    );
}

#[test]
fn every_semantic_error_has_an_input() {
    let error = semantic_error(&body("x := y;"));
    assert_eq!(
        error,
        SemanticError::UndefinedName {
            name: "y".to_string(),
            span: Span::new(25, 26)
        }
    );
    assert_eq!(error.to_string(), "undefined name `y` at 25..26");
    assert!(matches!(
        semantic_error(&body("x := 1; x := 2;")),
        SemanticError::DuplicateName { .. }
    ));
    assert!(matches!(
        semantic_error("f :: (a: Missing) {} main :: () {}"),
        SemanticError::UnknownType { .. }
    ));
    assert!(matches!(
        semantic_error(&body("x: bool = 1;")),
        SemanticError::TypeMismatch { .. }
    ));
    assert!(matches!(
        semantic_error(&body("xs := [2]i32{1, 2}; xs[2] = 1;")),
        SemanticError::InvalidLiteral { .. }
    ));
    assert!(matches!(
        semantic_error("f :: (a: i32) {} main :: () { f(); }"),
        SemanticError::WrongArgumentCount {
            expected: 1,
            found: 0,
            ..
        }
    ));
    assert!(matches!(
        semantic_error("main :: () { xs := [1]i32{1}; xs[0](); }"),
        SemanticError::NotCallable { .. }
    ));
    assert!(matches!(
        semantic_error(&body("x :: 1; x = 2;")),
        SemanticError::ImmutableAssignment { .. }
    ));
    assert!(matches!(
        semantic_error(&body("x := 1; x[0] = 2;")),
        SemanticError::InvalidAssignmentTarget { .. }
    ));
    assert!(matches!(
        semantic_error(&body("break;")),
        SemanticError::BreakOutsideLoop { .. }
    ));
    assert!(matches!(
        semantic_error(&body("continue;")),
        SemanticError::ContinueOutsideLoop { .. }
    ));
    assert!(matches!(
        semantic_error("f :: () -> i32 | i32 { return return_ok(1); } g :: () -> i32 { return f()?; } main :: () -> i32 { return g(); }"),
        SemanticError::InvalidPropagation { .. }
    ));
    assert!(matches!(
        semantic_error("main :: () -> i32 { if true { return 1; } }"),
        SemanticError::MissingReturn { .. }
    ));
    assert!(matches!(
        semantic_error("extern \"rust\" f() -> i32; main :: () {}"),
        SemanticError::InvalidAbi { .. }
    ));
    assert!(matches!(
        semantic_error("x :: i32 = x; main :: () {}"),
        SemanticError::InvalidOperand { .. }
    ));
    let typed = pipeline::analyze_source("f :: () {}", &floats).unwrap();
    assert!(matches!(
        semantic::validate_typed_entry_point(&typed),
        Err(SemanticError::InvalidEntryPoint { .. })
    ));
}

#[test]
fn every_comptime_error_has_an_input() {
    assert!(matches!(
        comptime_error("x :: #y; main :: () {}"),
        comptime::Error::Undefined { .. }
    ));
    assert!(matches!(
        comptime_error("x :: #(1 / 0); main :: () {}"),
        comptime::Error::DivisionByZero { .. }
    ));
    assert!(matches!(
        comptime_error("x :: #null; main :: () {}"),
        comptime::Error::Unsupported { .. }
    ));
    assert!(matches!(
        comptime_error("#1; main :: () {}"),
        comptime::Error::InvalidOperation { .. }
    ));
    let program = pipeline::parse_source("x :: #(1 + 2); main :: () {}").unwrap();
    let limits = Limits {
        steps: 2,
        ..Limits::default()
    };
    assert!(matches!(
        comptime::expand_with_limits(&program, 64, limits, &floats),
        Err(comptime::Error::StepLimit { .. })
    ));
    let limits = Limits {
        output: 0,
        ..Limits::default()
    };
    let program =
        pipeline::parse_source("#generate_constant(\"a\", 1); main :: () {}").unwrap();
    let error = comptime::expand_with_limits(&program, 64, limits, &floats).unwrap_err();
    assert_eq!(
        error.to_string(),
        "compile-time generated output exceeded the output limit"
    );
}

#[test]
fn stray_jumps_make_no_blocks() {
    let mut typed = pipeline::analyze_source("main :: () {}", &floats).unwrap();
    let span = Span::new(1, 2);
    typed.functions[0].body.statements.push(TypedStmt::Break { span });
    assert_eq!(
        MirProgram::lower(&typed),
        Err(MirError::BreakOutsideLoop { span })
    );
    typed.functions[0].body.statements[0] = TypedStmt::Continue { span };
    let error = pipeline::lower_typed_mir(&typed).unwrap_err();
    assert_eq!(
        error.to_string(),
        "mir error: continue outside loop in MIR lowering"
    );
}

fn i8_type() -> ResolvedType {
    ResolvedType::Integer {
        width: IntegerWidth::Bits(8),
        signed: true,
    }
}

#[test]
fn operators_wrap_and_fail() {
    let ty = i8_type();
    let int = ops::Value::Integer;
    assert_eq!(
        ops::binary(BinaryOp::Add, int(127), int(1), &ty, &floats),
        Ok(int(-128))
    );
    assert_eq!(
        ops::binary(BinaryOp::Multiply, int(100), int(3), &ty, &floats),
        Ok(int(44))
    );
    assert_eq!(
        ops::binary(BinaryOp::Divide, int(-7), int(2), &ty, &floats),
        Ok(int(-3))
    );
    assert_eq!(
        ops::binary(BinaryOp::Modulo, int(-7), int(2), &ty, &floats),
        Ok(int(-1))
    );
    assert_eq!(
        ops::binary(BinaryOp::Divide, int(1), int(0), &ty, &floats),
        Err(ops::Error::DivisionByZero)
    );
    assert_eq!(
        ops::binary(BinaryOp::ShiftLeft, int(1), int(8), &ty, &floats),
        Err(ops::Error::InvalidOperation)
    );
    assert_eq!(ops::unary(UnaryOp::Negate, int(-128), &ty), Ok(int(-128)));
    assert_eq!(ops::normalize(200, &ty), -56);
    assert_eq!(
        ops::normalize_with_pointer_width(
            -1,
            &ResolvedType::Integer { width: IntegerWidth::Pointer, signed: false },
            32
        ),
        0xffff_ffff
    );
}

#[test]
fn constants_that_are_none_are_refused() {
    let span = Span::new(0, 1);
    let integer = |value: i128| TypedExpr::Integer {
        value,
        ty: i8_type(),
        span,
    };
    let divided = TypedExpr::Binary {
        left: Box::new(integer(1)),
        operator: BinaryOp::Divide,
        right: Box::new(integer(0)),
        ty: i8_type(),
        operand_type: i8_type(),
        span,
    };
    assert_eq!(
        typed_eval::evaluate(&divided, &floats),
        Err(typed_eval::Error::DivisionByZero)
    );
    let null = TypedExpr::Null {
        ty: ResolvedType::Pointer(Box::new(i8_type())),
        span,
    };
    assert_eq!(
        typed_eval::evaluate(&null, &floats),
        Err(typed_eval::Error::NotConstant)
    );
    let negated = TypedExpr::Unary {
        operator: UnaryOp::Negate,
        operand: Box::new(TypedExpr::Bool {
            value: true,
            ty: ResolvedType::Bool,
            span,
        }),
        ty: ResolvedType::Bool,
        span,
    };
    let error = typed_eval::evaluate(&negated, &floats).unwrap_err();
    assert_eq!(error, typed_eval::Error::InvalidOperation);
    assert_eq!(
        error.to_string(),
        "invalid operation during typed evaluation"
    );
    assert!(typed_eval::is_constant(&integer(3), &floats));
}
