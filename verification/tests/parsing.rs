use compiler::ast::{
    BinaryOp, Decl, Expr, Program, Stmt, Type, UnaryOp, VariableDecl, VariableKind,
};
use compiler::lexer::{Lexer, TokenKind};
use compiler::parser::{ParseError, Parser};

fn parse(source: &str) -> Program {
    let mut lexer = Lexer::new(source);
    let mut tokens = Vec::new();

    loop {
        let token = lexer.next_token().expect("lexing failed");
        let eof = token.kind == TokenKind::Eof;

        tokens.push(token);

        if eof {
            break;
        }
    }

    Parser::new(tokens).parse().expect("parsing failed")
}

#[test]
fn parses_hello_program_syntax() {
    let program = parse(
        r#"
        fn main() {
            let answer = 42;
            let other = 10.5;

            if answer >= 40 {
                return;
            }
        }
        "#,
    );

    let Decl::Function(function) = &program.declarations[0] else {
        panic!("expected function");
    };

    assert_eq!(function.name, "main");
    assert_eq!(function.return_type, Type::Unit);
    assert_eq!(function.body.statements.len(), 3);
    assert!(matches!(
        function.body.statements[0],
        Stmt::Variable(VariableDecl {
            kind: VariableKind::Immutable,
            ..
        })
    ));
    assert!(matches!(
        function.body.statements[1],
        Stmt::Variable(VariableDecl {
            value: Expr::Float { .. },
            ..
        })
    ));
    assert!(matches!(function.body.statements[2], Stmt::If { .. }));
}

#[test]
fn parses_minimal_main() {
    let program = parse(
        r#"
        main :: () -> i32 {
            return 42;
        }
        "#,
    );

    assert_eq!(program.declarations.len(), 1);

    let Decl::Function(function) = &program.declarations[0] else {
        panic!("expected function");
    };

    assert_eq!(function.name, "main");
    assert!(function.params.is_empty());
    assert_eq!(function.return_type, Type::Named("i32".into()));
    assert_eq!(function.body.statements.len(), 1);

    let Stmt::Return {
        value: Some(Expr::Integer { value, .. }),
        ..
    } = &function.body.statements[0]
    else {
        panic!("expected return statement");
    };

    assert_eq!(*value, 42);
}

#[test]
fn parses_function_parameters() {
    let program = parse(
        r#"
        add :: (a: i64, b: i64) -> i64 {
            return a + b;
        }
        "#,
    );

    let Decl::Function(function) = &program.declarations[0] else {
        panic!("expected function");
    };

    assert_eq!(function.params.len(), 2);

    assert_eq!(function.params[0].name, "a");
    assert_eq!(function.params[0].ty, Type::Named("i64".into()));

    assert_eq!(function.params[1].name, "b");
    assert_eq!(function.params[1].ty, Type::Named("i64".into()));
}

#[test]
fn parses_operator_precedence() {
    let program = parse(
        r#"
        main :: () -> i32 {
            return 1 + 2 * 3;
        }
        "#,
    );

    let Decl::Function(function) = &program.declarations[0] else {
        panic!("expected function");
    };

    let Stmt::Return {
        value: Some(expression),
        ..
    } = &function.body.statements[0]
    else {
        panic!("expected return");
    };

    let Expr::Binary {
        operator: BinaryOp::Add,
        left,
        right,
        ..
    } = expression
    else {
        panic!("expected addition");
    };

    assert!(matches!(left.as_ref(), Expr::Integer { value: 1, .. }));

    let Expr::Binary {
        operator: BinaryOp::Multiply,
        left,
        right,
        ..
    } = right.as_ref()
    else {
        panic!("expected multiplication");
    };

    assert!(matches!(left.as_ref(), Expr::Integer { value: 2, .. }));

    assert!(matches!(right.as_ref(), Expr::Integer { value: 3, .. }));
}

#[test]
fn parses_function_calls() {
    let program = parse(
        r#"
        main :: () -> i32 {
            return add(10, 20);
        }
        "#,
    );

    let Decl::Function(function) = &program.declarations[0] else {
        panic!("expected function");
    };

    let Stmt::Return {
        value: Some(Expr::Call { arguments, .. }),
        ..
    } = &function.body.statements[0]
    else {
        panic!("expected function call");
    };

    assert_eq!(arguments.len(), 2);
}

#[test]
fn parses_local_declarations() {
    let program = parse(
        r#"
        main :: () -> i32 {
            x := 10;
            y : i32 = 20;
            z :: 30;
            return x + y + z;
        }
        "#,
    );

    let Decl::Function(function) = &program.declarations[0] else {
        panic!("expected function");
    };

    assert_eq!(function.body.statements.len(), 4);

    let Stmt::Variable(variable) = &function.body.statements[0] else {
        panic!("expected variable");
    };

    assert_eq!(variable.name, "x");
    assert_eq!(variable.kind, VariableKind::MutableInferred);
    assert_eq!(variable.ty, None);

    let Stmt::Variable(variable) = &function.body.statements[1] else {
        panic!("expected variable");
    };

    assert_eq!(variable.kind, VariableKind::MutableTyped);
    assert_eq!(variable.ty, Some(Type::Named("i32".into())));

    let Stmt::Variable(variable) = &function.body.statements[2] else {
        panic!("expected variable");
    };

    assert_eq!(variable.kind, VariableKind::Immutable);
}

#[test]
fn parses_structs_arrays_fields_and_indices() {
    let program = parse(
        "Pair :: struct { x: i32; y: i32; } main :: () -> i32 { p := Pair{ x = 1, y = 2, }; xs := [2]i32{3, 4}; p.x = xs[1]; return p.x; }",
    );
    assert!(matches!(program.declarations[0], Decl::Struct(_)));
    let Decl::Function(function) = &program.declarations[1] else {
        panic!("expected function");
    };
    assert!(matches!(
        function.body.statements[0],
        Stmt::Variable(VariableDecl {
            value: Expr::StructLiteral { .. },
            ..
        })
    ));
    assert!(matches!(
        function.body.statements[1],
        Stmt::Variable(VariableDecl {
            value: Expr::ArrayLiteral { .. },
            ..
        })
    ));
    assert!(matches!(
        function.body.statements[2],
        Stmt::Assignment { .. }
    ));
}

#[test]
fn parses_empty_struct_literals() {
    let program = parse("Empty :: struct {} main :: () { x := Empty{}; }");
    let Decl::Function(function) = &program.declarations[1] else {
        panic!("expected function");
    };
    assert!(matches!(
        &function.body.statements[0],
        Stmt::Variable(VariableDecl {
            value: Expr::StructLiteral { fields, .. },
            ..
        }) if fields.is_empty()
    ));
}

#[test]
fn parses_assignment() {
    let program = parse(
        r#"
        main :: () -> i32 {
            x := 10;
            x = 20;
            return x;
        }
        "#,
    );

    let Decl::Function(function) = &program.declarations[0] else {
        panic!("expected function");
    };

    assert!(matches!(
        function.body.statements[1],
        Stmt::Assignment { .. }
    ));
}

#[test]
fn parses_unary_expression() {
    let program = parse(
        r#"
        main :: () -> i32 {
            return -42;
        }
        "#,
    );

    let Decl::Function(function) = &program.declarations[0] else {
        panic!("expected function");
    };

    let Stmt::Return {
        value: Some(Expr::Unary { operator, .. }),
        ..
    } = &function.body.statements[0]
    else {
        panic!("expected unary expression");
    };

    assert_eq!(*operator, UnaryOp::Negate);
}

#[test]
fn parses_while_and_loop_controls_with_spans() {
    let source = "main :: () -> i32 { while true { if true { break; } continue; } return 0; }";
    let program = parse(source);
    let Decl::Function(function) = &program.declarations[0] else {
        panic!("expected function");
    };

    let Stmt::While {
        condition,
        body,
        span,
    } = &function.body.statements[0]
    else {
        panic!("expected while statement");
    };
    assert!(matches!(condition, Expr::Bool { value: true, .. }));
    assert_eq!(span.start, source.find("while").unwrap());
    assert_eq!(span.end, source.find("} return").unwrap() + 1);
    assert!(matches!(body.statements[0], Stmt::If { .. }));

    let Stmt::If { then_branch, .. } = &body.statements[0] else {
        panic!("expected nested if");
    };
    let Stmt::Break { span } = then_branch.statements[0] else {
        panic!("expected break");
    };
    assert_eq!(&source[span.start..span.end], "break;");

    let Stmt::Continue { span } = body.statements[1] else {
        panic!("expected continue");
    };
    assert_eq!(&source[span.start..span.end], "continue;");
}

#[test]
fn reports_missing_loop_syntax() {
    let mut lexer = Lexer::new("main :: () -> i32 { while true return 0; }");
    let mut tokens = Vec::new();
    loop {
        let token = lexer.next_token().unwrap();
        let eof = token.kind == TokenKind::Eof;
        tokens.push(token);
        if eof {
            break;
        }
    }
    let error = Parser::new(tokens).parse().unwrap_err();
    assert!(matches!(error, ParseError::UnexpectedToken { .. }));

    let mut lexer = Lexer::new("main :: () -> i32 { while true { break } return 0; }");
    let mut tokens = Vec::new();
    loop {
        let token = lexer.next_token().unwrap();
        let eof = token.kind == TokenKind::Eof;
        tokens.push(token);
        if eof {
            break;
        }
    }
    let error = Parser::new(tokens).parse().unwrap_err();
    assert!(matches!(error, ParseError::UnexpectedToken { .. }));
}
