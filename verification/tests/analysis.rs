use compiler::ast::{BinaryOp, Decl, Expr, Program, Type};
use compiler::comptime::{
    expand, expand_with_limits, reflect_function, reflect_type, Error, Limits,
};
use compiler::floats::{FloatAnswer, FloatOp};
use compiler::lexer::{Span, TokenKind};
use compiler::mir::{MirFunction, MirInstruction, MirProgram, MirTerminator};
use compiler::pipeline;
use compiler::semantic::{analyze_typed, fold_constant, SemanticError};
use compiler::typed::{IntegerWidth, ResolvedType, TypedExpr, TypedProgram};
use compiler::typed_eval;

/// What the machine's floating-point numbers answer.
fn floats(op: FloatOp, a: String, b: String) -> FloatAnswer {
    let x: f64 = a.parse().unwrap_or(f64::NAN);
    let y: f64 = b.parse().unwrap_or(f64::NAN);
    let (value, truth) = match op {
        FloatOp::Canonical => (x, false),
        FloatOp::Add => (x + y, false),
        FloatOp::Subtract => (x - y, false),
        FloatOp::Multiply => (x * y, false),
        FloatOp::Divide => (x / y, false),
        FloatOp::Modulo => (x % y, false),
        FloatOp::Equal => (x, x == y),
        FloatOp::NotEqual => (x, x != y),
        FloatOp::Less => (x, x < y),
        FloatOp::LessEqual => (x, x <= y),
        FloatOp::Greater => (x, x > y),
        FloatOp::GreaterEqual => (x, x >= y),
    };
    FloatAnswer {
        number: format!("{value}"),
        truth,
    }
}

fn parse(source: &str) -> Program {
    pipeline::parse_source(source).expect("test source should parse")
}

#[test]
fn evaluates_control_flow_and_break_continue() {
    let source = r#"
        count :: (limit: i32) -> i32 {
            value := 0;
            while (value < limit) {
                value = value + 1;
            }
            return value;
        }
        answer :: #count(4);
        main :: () {}
    "#;
    let program = parse(source);
    let expanded = expand(&program, usize::BITS, &floats).unwrap();
    let variable = expanded
        .declarations
        .iter()
        .find_map(|d| match d {
            Decl::Variable(v) if v.name == "answer" => Some(v),
            _ => None,
        })
        .unwrap();
    assert!(matches!(variable.value, Expr::Integer { value: 4, .. }));
}

#[test]
fn reflection_is_structured_and_generation_is_checked() {
    let source = r#"
        Pair :: struct { tag: u8; value: i32; }
        add :: (a: i32, b: i32) -> i32 { return a + b; }
        #generate_function("generated", reflect_type(Pair).size);
        main :: () -> i32 { return generated(); }
    "#;
    let program = parse(source);
    let info = reflect_type(&program, "Pair", usize::BITS, &floats).unwrap();
    assert_eq!(info.fields[1].name, "value");
    assert_eq!(info.fields[1].offset, 4);
    let function = reflect_function(&program, "add").unwrap();
    assert_eq!(function.parameters.len(), 2);
    let analyzed = pipeline::analyze_program(&program, &floats).unwrap();
    assert!(analyzed.functions.iter().any(|f| f.name == "generated"));
}

#[test]
fn runtime_only_calls_and_limits_have_invocation_spans() {
    let source = r#"
        extern "c" puts(value: *u8) -> i32;
        answer :: #puts(null);
        main :: () {}
    "#;
    let program = parse(source);
    let error = expand(&program, usize::BITS, &floats).unwrap_err();
    assert!(matches!(error, Error::Unsupported { .. }));
    assert!(error.span().start > 0);

    let invalid = parse("#validate(false, \"bad declaration\");\nmain :: () {}");
    let error = expand(&invalid, usize::BITS, &floats).unwrap_err();
    assert!(matches!(error, Error::InvalidOperation { .. }));
    assert!(error.to_string().contains("bad declaration"));

    let recursive = parse("loop :: () { #loop(); }\n#loop();\nmain :: () {}");
    let error = expand_with_limits(
        &recursive,
        usize::BITS,
        Limits {
            recursion: 2,
            ..Limits::default()
        },
        &floats,
    )
    .unwrap_err();
    assert!(matches!(error, Error::RecursionLimit { .. }));
}

#[test]
fn expansion_is_reproducible_and_generic_types_specialize() {
    let source = r#"
        Box :: struct(T: type) { value: T; }
        get :: (box: Box(i32)) -> i32 { return box.value; }
        choose :: (T: type, a: T, b: T) -> T { if a > b { return a; } return b; }
        first :: #choose(1, 2);
        second :: #choose(3, 4);
        main :: () -> i32 { x := Box__i32{value = 7}; return get(x) + choose(5, 6); }
    "#;
    let program = parse(source);
    assert_eq!(
        expand(&program, usize::BITS, &floats).unwrap(),
        expand(&program, usize::BITS, &floats).unwrap()
    );
    let expanded = expand(&program, usize::BITS, &floats).unwrap();
    assert!(
        expanded
            .declarations
            .iter()
            .any(|d| matches!(d, Decl::Struct(s) if s.name == "Box__i32"))
    );
    assert_eq!(
        expanded
            .declarations
            .iter()
            .filter(|d| matches!(d, Decl::Function(f) if f.name == "choose__i32"))
            .count(),
        1
    );
}

fn check(source: &str) -> Result<TypedProgram, SemanticError> {
    let program = pipeline::parse_source(source).expect("source should parse");
    analyze_typed(&program, &floats)
}

#[test]
fn accepts_structs_arrays_globals_and_rvalue_access() {
    assert!(check(
        "Pair :: struct { x: i32; y: i32; }\n\
         make :: () -> Pair { return Pair{x = 1, y = 2}; }\n\
         limit :: i32 = 4; counter : i32 = 5;\n\
         main :: () -> i32 { xs := [2]i32{3, 4}; xs[0] = 8; return make().x + xs[0] + limit + counter; }"
    )
    .is_ok());
}

#[test]
fn typed_program_uses_stable_definition_ids() {
    let typed = check(
        "Pair :: struct { x: i32; }\nmain :: () -> i32 { p := Pair{x = 1}; return p.x; }",
    )
    .expect("program should type check");
    let pair = typed.symbols.find("Pair").expect("struct symbol");
    let main = typed.symbols.find("main").expect("function symbol");
    assert_eq!(typed.structs[0].id, pair.id);
    assert_eq!(typed.functions[0].id, main.id);
    assert_ne!(pair.id, main.id);
    assert_eq!(typed.symbols.get(pair.id).unwrap().name, "Pair");
}

#[test]
fn rejects_invalid_struct_and_array_operations() {
    assert!(check(
        "Pair :: struct { x: i32; } main :: () -> i32 { p := Pair{x = 1, z = 2}; return 0; }"
    )
    .is_err());
    assert!(check(
        "Pair :: struct { x: i32; } main :: () -> i32 { p := Pair{x = 1, x = 2}; return 0; }"
    )
    .is_err());
    assert!(check("main :: () -> i32 { xs := [2]i32{1}; return 0; }").is_err());
    assert!(check("main :: () -> i32 { xs := [2]i32{1, 2}; return xs[2]; }").is_err());
    assert!(
        check("idx :: usize = 2; main :: () -> i32 { xs := [2]i32{1, 2}; return xs[idx]; }")
            .is_err()
    );
}

#[test]
fn rejects_nonconstant_global_initializers_and_constant_traps() {
    assert!(
        check("f :: () -> i32 { return 1; } bad : i32 = f(); main :: () -> i32 { return 0; }")
            .is_err()
    );
    assert!(
        check("counter : i32 = 1; bad :: i32 = counter; main :: () -> i32 { return 0; }")
            .is_err()
    );
    assert!(check("bad :: i32 = 1 / 0; main :: () -> i32 { return 0; }").is_err());
}

#[test]
fn lowers_structured_control_flow_to_explicit_blocks() {
    let typed = pipeline::analyze_source(
        "main :: () -> i32 { var x: i32 = 0; while x < 3 { if x == 1 { break; } x = x + 1; } return x; }",
        &floats,
    )
    .unwrap();
    let mir = MirProgram::lower(&typed).unwrap();
    let function = &mir.functions[0];
    assert!(
        function
            .blocks
            .iter()
            .any(|block| { matches!(block.terminator, MirTerminator::Branch { .. }) })
    );
    assert!(
        function
            .blocks
            .iter()
            .any(|block| { matches!(block.terminator, MirTerminator::Jump(_)) })
    );
    assert!(
        function
            .blocks
            .iter()
            .any(|block| { matches!(block.terminator, MirTerminator::Return(Some(_))) })
    );
}

fn i32_value(value: i128) -> TypedExpr {
    TypedExpr::Integer {
        value,
        ty: ResolvedType::Integer {
            width: IntegerWidth::Bits(32),
            signed: true,
        },
        span: Span::new(0, 1),
    }
}

#[test]
fn evaluates_typed_integer_widths_and_short_circuiting() {
    let expression = TypedExpr::Binary {
        left: Box::new(i32_value(2)),
        operator: BinaryOp::Add,
        right: Box::new(i32_value(3)),
        ty: i32_value(0).ty(),
        operand_type: i32_value(0).ty(),
        span: Span::new(0, 1),
    };
    assert_eq!(typed_eval::evaluate(&expression, &floats), Ok(typed_eval::Value::Integer(5)));
}

#[test]
fn all_stages_share_the_same_entry_points() {
    assert_eq!(
        pipeline::lex_source("main :: () {}").unwrap().last().unwrap().kind,
        TokenKind::Eof
    );
    assert!(pipeline::parse_source("main :: () {}").is_ok());
    assert!(pipeline::analyze_source("main :: () {}", &floats).is_ok());
}

#[test]
fn instances_stand_in_the_order_of_their_names() {
    let program = parse(
        "pick :: (T: type, a: T) -> T { return a; } main :: () -> i32 { x : u8 = 3; y : i64 = 4; pick(x); pick(y); pick(x); return pick(5); }",
    );
    let plain = expand(&program, usize::BITS, &floats).unwrap();
    let mut names: Vec<String> = Vec::new();
    for declaration in &plain.declarations {
        match declaration {
            Decl::Function(f) => {
                assert!(f.generic_params.is_empty());
                names.push(f.name.clone());
            }
            other => panic!("expected functions, found {other:?}"),
        }
    }
    assert_eq!(names, ["main", "pick__i32", "pick__i64", "pick__u8"]);
}

#[test]
fn spellings_never_merge_types() {
    let program = parse(
        "p_i32 :: struct { value: i32; } pick :: (T: type, a: T) -> i32 { return 1; } main :: (a: *i32, b: p_i32, c: i32 | i32, d: i32 | bool) -> i32 { return pick(a) + pick(b) + pick(c) + pick(d) + pick(a); }",
    );
    let plain = expand(&program, usize::BITS, &floats).unwrap();
    let names: Vec<&str> = plain
        .declarations
        .iter()
        .filter_map(|d| match d {
            Decl::Function(f) => Some(f.name.as_str()),
            _ => None,
        })
        .collect();
    assert_eq!(
        names,
        [
            "main",
            "pick__p_i32",
            "pick__p_i32___________",
            "pick__result",
            "pick__result______________________"
        ]
    );
}

#[test]
fn type_arguments_of_structs_stay_apart() {
    let program = parse(
        "p_i32 :: struct { value: i32; } Box :: struct(T: type) { value: T; } f :: (a: Box(*i32), b: Box(p_i32), c: Box([2]i32), d: Box([]u8), e: Box(i32 | bool)) -> *i32 { return a.value; } main :: () -> i32 { return 0; }",
    );
    let plain = expand(&program, usize::BITS, &floats).unwrap();
    let fields: Vec<(&str, Type)> = plain
        .declarations
        .iter()
        .filter_map(|d| match d {
            Decl::Struct(s) if s.name.starts_with("Box") => {
                Some((s.name.as_str(), s.fields[0].ty.clone()))
            }
            _ => None,
        })
        .collect();
    let i32_type = || Type::Named("i32".to_string());
    assert_eq!(
        fields,
        [
            ("Box__*i32", Type::Pointer(Box::new(i32_type()))),
            (
                "Box__[2]i32",
                Type::Array { length: 2, element: Box::new(i32_type()) }
            ),
            (
                "Box__[]u8",
                Type::Slice(Box::new(Type::Named("u8".to_string())))
            ),
            ("Box__p_i32", Type::Named("p_i32".to_string())),
            (
                "Box__|i32,bool",
                Type::Result {
                    success: Box::new(i32_type()),
                    error: Box::new(Type::Named("bool".to_string())),
                }
            ),
        ]
    );
}

#[test]
fn layouts_go_by_what_is_declared() {
    let program = parse(
        "item :: struct { a: i64; b: i64; } union_like :: struct { a: u8; } size :: #size_of(item); small :: #size_of(union_like); wide :: #size_of(u128); main :: () -> i32 { return 0; }",
    );
    let plain = expand(&program, usize::BITS, &floats).unwrap();
    let sizes: Vec<i128> = plain
        .declarations
        .iter()
        .filter_map(|d| match d {
            Decl::Variable(v) => match &v.value {
                Expr::Integer { value, .. } => Some(*value),
                other => panic!("expected a number, found {other:?}"),
            },
            _ => None,
        })
        .collect();
    assert_eq!(sizes, [16, 1, 16]);
}

fn compile_time_number(source: &str) -> Result<i128, Error> {
    let plain = expand(&parse(source), usize::BITS, &floats)?;
    for declaration in &plain.declarations {
        if let Decl::Variable(v) = declaration {
            if let Expr::Integer { value, .. } = &v.value {
                return Ok(*value);
            }
        }
    }
    panic!("expected a number");
}

#[test]
fn integers_of_any_width_have_layouts() {
    assert_eq!(compile_time_number("x :: #size_of(i24); main :: () -> i32 { return 0; }"), Ok(3));
    assert_eq!(compile_time_number("x :: #size_of(u4); main :: () -> i32 { return 0; }"), Ok(1));
    assert_eq!(compile_time_number("x :: #size_of(unit); main :: () -> i32 { return 0; }"), Ok(0));
    assert_eq!(compile_time_number("x :: #align_of(unit); main :: () -> i32 { return 0; }"), Ok(1));
    assert!(compile_time_number("x :: #size_of(other); main :: () -> i32 { return 0; }").is_err());
}

#[test]
fn layouts_that_fit_are_given() {
    assert_eq!(
        compile_time_number("S :: struct { a: [2305843009213693951]u64; } x :: #size_of(S); main :: () -> i32 { return 0; }"),
        Ok(18446744073709551608)
    );
    assert!(compile_time_number("S :: struct { a: [2305843009213693951]u64; b: u64; } x :: #size_of(S); main :: () -> i32 { return 0; }").is_err());
}

#[test]
fn indices_are_compared_as_they_are() {
    assert!(check("main :: () -> i32 { xs := [2]i32{1, 2}; return xs[1]; }").is_ok());
    assert!(check("main :: () -> i32 { xs := [2]i32{1, 2}; return xs[18446744073709551616]; }").is_err());
    let source = |index: &str| {
        format!("f :: () -> i32 {{ xs := [2]i32{{7, 8}}; return xs[{index}]; }} x :: #f(); main :: () -> i32 {{ return 0; }}")
    };
    assert_eq!(compile_time_number(&source("1")), Ok(8));
    assert!(compile_time_number(&source("18446744073709551616")).is_err());
}

fn blocks_of(source: &str) -> MirFunction {
    let typed = check(source).unwrap();
    let main = typed.functions.iter().find(|f| f.name == "main").unwrap();
    MirFunction::lower(main).unwrap()
}

#[test]
fn deferred_calls_start_no_blocks() {
    let main = blocks_of("f :: () {} g :: () {} main :: () { defer f(); defer g(); return; }");
    assert_eq!(main.blocks.len(), 1);
    assert_eq!(main.blocks[0].terminator, MirTerminator::Return(None));
    match &main.blocks[0].instructions[..] {
        [MirInstruction::RunCleanup { actions }] => {
            let names: Vec<&str> = actions.iter().map(|a| a.name.as_str()).collect();
            assert_eq!(names, ["g", "f"]);
        }
        other => panic!("expected one step, found {other:?}"),
    }
    let main = blocks_of("f :: () {} main :: () -> i32 { defer f(); i := 0; while i < 3 { defer f(); i = i + 1; } return i; }");
    assert_eq!(main.blocks.len(), 4);
}

#[test]
fn errors_start_blocks_only_where_lists_differ() {
    let start = "f :: () {} r :: () -> i32 | i32 { return return_ok(1); } ";
    let count = |body: &str| blocks_of(&format!("{start} main :: () -> i32 {{ {body} }}")).blocks.len();
    assert_eq!(count("defer f(); x := r()?; return x;"), 1);
    assert_eq!(count("x := r()?; defer f(); return x;"), 1);
    assert_eq!(count("x := r()?; defer f(); y := r()?; return x + y;"), 2);
    assert_eq!(count("defer f(); return r()?;"), 1);
    assert_eq!(count("defer f(); x := r()?; return x + r()?;"), 2);
}

#[test]
fn folding_keeps_values() {
    let one = |value: i128| i32_value(value);
    let ty = one(0).ty();
    let span = Span { start: 0, end: 1 };
    let sum = TypedExpr::Binary {
        left: Box::new(one(i32::MAX as i128)),
        operator: BinaryOp::Add,
        right: Box::new(one(2)),
        ty: ty.clone(),
        operand_type: ty.clone(),
        span,
    };
    let whole = TypedExpr::Binary {
        left: Box::new(sum),
        operator: BinaryOp::ShiftRight,
        right: Box::new(one(1)),
        ty: ty.clone(),
        operand_type: ty.clone(),
        span,
    };
    let folded = fold_constant(&whole, &floats);
    assert!(matches!(folded, TypedExpr::Integer { value: -1073741824, .. }));
    assert_eq!(
        typed_eval::evaluate(&folded, &floats),
        typed_eval::evaluate(&whole, &floats)
    );
}

#[test]
fn constants_are_worked_out() {
    let typed = check("g : i32 = (2 + 3) * 4 - -1; main :: () -> i32 { return g; }").unwrap();
    assert!(matches!(typed.globals[0].value, TypedExpr::Integer { value: 21, .. }));
    assert!(check("g : u64 = 1 << 3; main :: () -> i32 { return 0; }").is_ok());
    assert!(check("g : u64 = 1 << 4294967296; main :: () -> i32 { return 0; }").is_err());
}
