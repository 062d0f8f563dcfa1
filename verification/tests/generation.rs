use compiler::codegen::{declare_structs, CodeGenerator};
use compiler::emission::LayoutAsk;
use compiler::floats::{FloatAnswer, FloatOp};
use compiler::instructions::{
    Command, Constant, IntTest, LowBinary, LowFunction, LowModule, LowType, Operand,
};
use compiler::interpreter;
use compiler::pipeline;
use compiler::typed::TypedProgram;

/// What the machine's floating-point numbers answer.
fn floats(op: FloatOp, a: String, b: String) -> FloatAnswer {
    let x: f64 = a.parse().unwrap_or(f64::NAN);
    let y: f64 = b.parse().unwrap_or(f64::NAN);
    let (value, truth) = match op {
        FloatOp::Canonical => (x, false),
        FloatOp::Add => (x + y, false),
        FloatOp::Subtract => (x - y, false),
        FloatOp::Multiply => (x * y, false),
        FloatOp::Divide => (x / y, false),
        FloatOp::Modulo => (x % y, false),
        FloatOp::Equal => (x, x == y),
        FloatOp::NotEqual => (x, x != y),
        FloatOp::Less => (x, x < y),
        FloatOp::LessEqual => (x, x <= y),
        FloatOp::Greater => (x, x > y),
        FloatOp::GreaterEqual => (x, x >= y),
    };
    FloatAnswer {
        number: format!("{value}"),
        truth,
    }
}

fn typed(source: &str) -> TypedProgram {
    pipeline::analyze_source(source, &floats).unwrap()
}

/// A machine on which every type is eight bytes large.
fn eight(ask: LayoutAsk) -> Option<u64> {
    match ask {
        LayoutAsk::Size(_) => Some(8),
        LayoutAsk::Align(_) => Some(4),
        LayoutAsk::Offset { index, .. } => Some(u64::from(index) * 4),
    }
}

fn module(source: &str) -> LowModule {
    CodeGenerator::new("m")
        .generate_typed(&typed(source), &eight)
        .unwrap()
}

fn function<'a>(module: &'a LowModule, name: &str) -> &'a LowFunction {
    module.functions.iter().find(|f| f.name == name).unwrap()
}

fn name(text: &str) -> String {
    text.to_string()
}

fn number(value: i128) -> Operand {
    Operand::Integer {
        value,
        ty: LowType::Int(32),
    }
}

#[test]
fn a_constant_is_returned() {
    let low = module("main :: () -> i32 { return 3; }");
    assert_eq!(low.name, "m");
    let main = function(&low, "main");
    assert_eq!(main.result, Some(LowType::Int(32)));
    assert_eq!(
        main.commands,
        vec![
            Command::Append { name: name("entry") },
            Command::Position { block: 0 },
            Command::Position { block: 0 },
            Command::Return {
                value: Some(number(3))
            },
        ]
    );
}

#[test]
fn divisions_are_guarded() {
    let low = module("f :: (a: u32, b: u32) -> u32 { return a / b; }");
    let commands = &function(&low, "f").commands;
    assert!(commands.contains(&Command::Compare {
        test: IntTest::NotEqual,
        left: Operand::Register(8),
        right: Operand::Number { value: 0, bits: 32 },
        name: name("div.nonzero"),
    }));
    assert!(commands.contains(&Command::Trap));
    assert_eq!(
        commands[commands.len() - 2],
        Command::Binary {
            operation: LowBinary::DivideUnsigned,
            left: Operand::Register(7),
            right: Operand::Register(8),
            name: name("div"),
        }
    );
}

#[test]
fn logic_joins_where_the_right_side_ends() {
    let low = module("f :: (a: bool, b: i32) -> bool { return a && 1 / b == 0; }");
    let commands = &function(&low, "f").commands;
    let joined = commands
        .iter()
        .find_map(|c| match c {
            Command::Choose { left_block, right_block, .. } => Some((*left_block, *right_block)),
            _ => None,
        })
        .unwrap();
    assert_eq!(commands[joined.0], Command::Append { name: name("after.trap") });
    assert_eq!(
        commands[joined.1],
        Command::Append { name: name("logical.short") }
    );
}

#[test]
fn small_aggregates_go_to_foreign_functions_as_integers() {
    let source = "Pair :: struct { x: i32; y: i32; } extern \"c\" give(p: Pair) -> Pair; main :: () -> i32 { p := give(Pair{x = 1, y = 2}); return p.x; }";
    let low = module(source);
    let give = function(&low, "give");
    assert_eq!(give.params, vec![LowType::Int(64)]);
    assert_eq!(give.result, Some(LowType::Int(64)));
    assert!(give.is_extern && give.commands.is_empty());
    let main = function(&low, "main");
    assert!(main.commands.iter().any(|c| matches!(c,
        Command::Load { ty: LowType::Int(64), name, .. } if name == "abi.pack")));
    assert!(main.commands.iter().any(|c| matches!(c,
        Command::Load { ty: LowType::Named(_), name, .. } if name == "abi.unpack")));
}

#[test]
fn globals_have_their_values() {
    let low = module("limit :: i32 = 2 + 2; on : bool = true; xs : [2]i32 = [2]i32{1, 2}; main :: () -> i32 { return limit; }");
    let find = |n: &str| low.globals.iter().find(|g| g.name == n).unwrap();
    assert!(find("limit").constant && !find("on").constant);
    assert_eq!(
        find("limit").value,
        Constant::Integer {
            value: 4,
            ty: LowType::Int(32)
        }
    );
    assert_eq!(find("on").value, Constant::Number { value: 1, bits: 1 });
    assert_eq!(
        find("xs").ty,
        LowType::Array {
            length: 2,
            element: Box::new(LowType::Int(32))
        }
    );
}

#[test]
fn debuggers_are_told_of_places_and_variables() {
    let source = "main :: () -> i32 {\n    x := 1;\n    return x;\n}\n";
    let low = CodeGenerator::with_pointer_width("m", 64)
        .with_debug_info_source("f.compy", source, false)
        .generate_typed(&typed(source), &eight)
        .unwrap();
    let main = function(&low, "main");
    let told = main.debug.as_ref().unwrap();
    assert_eq!((told.line, told.locals.len()), (1, 1));
    assert_eq!(told.locals[0].name, "x");
    assert_eq!(
        told.locals[0].kind,
        "Integer { width: Bits(32), signed: true }"
    );
    assert_eq!(told.locals[0].line, 2);
    assert!(main.commands.contains(&Command::Locate { line: 2, column: 5 }));
    assert!(!main.commands.contains(&Command::Locate { line: 3, column: 5 }));
}

#[test]
fn symbols_are_declared_once() {
    let source = "extern \"c\" a() -> i32; extern \"c\" b() -> i32; main :: () -> i32 { return a() + b(); }";
    let mut program = typed(source);
    for f in &mut program.functions {
        if f.name != "main" {
            f.link_name = Some(name("same"));
        }
    }
    let error = CodeGenerator::new("m")
        .generate_typed(&program, &eight)
        .unwrap_err();
    assert_eq!(error.message, "function `same` is declared more than once");
    assert!(error.to_string().contains(" at "));
}

#[test]
fn programs_that_are_no_programs_are_refused() {
    let program = pipeline::parse_source("main :: () -> i32 { return x; }").unwrap();
    let error = CodeGenerator::new("m")
        .generate(&program, &eight, &floats)
        .unwrap_err();
    assert!(error.to_string().starts_with("semantic error: "));
    let error = CodeGenerator::with_pointer_width("m", 0)
        .generate_typed(&typed("main :: () -> usize { return 1; }"), &eight)
        .unwrap_err();
    assert_eq!(error.to_string(), "zero pointer width");
}

#[test]
fn native_layout_matches_llvm_for_structs_and_arrays() {
    let source = "Pair :: struct { tag: i8; value: i32; } main :: () -> i32 { return 0; }";
    let structs = declare_structs(&typed(source), usize::BITS).unwrap();
    assert_eq!(structs[0].name, "Pair");
    assert_eq!(structs[0].fields, vec![LowType::Int(8), LowType::Int(32)]);
    let asks = |question: &str| {
        let source = format!(
            "Pair :: struct {{ tag: i8; value: i32; }} main :: () -> usize {{ return {question}; }}"
        );
        interpreter::run(&typed(&source), &floats).unwrap()
    };
    assert_eq!(asks("size_of(Pair)"), 8);
    assert_eq!(asks("align_of(Pair)"), 4);
    assert_eq!(asks("offset_of(Pair, tag)"), 0);
    assert_eq!(asks("offset_of(Pair, value)"), 4);
    assert_eq!(asks("size_of([3]i32)"), 12);
    assert_eq!(asks("align_of([3]i32)"), 4);
}

#[test]
fn checked_indexing_is_guarded() {
    let low = module("f :: (xs: [4]i32, i: usize) -> i32 { return xs[i]; }");
    let commands = &function(&low, "f").commands;
    let element = commands
        .iter()
        .position(|c| matches!(c, Command::ArrayElement { .. }))
        .unwrap();
    assert!(matches!(
        &commands[element - 8],
        Command::Compare {
            test: IntTest::LessUnsigned,
            right: Operand::Number { value: 4, bits: 64 },
            ..
        }
    ));
    assert_eq!(commands[element - 3], Command::Trap);
    let low = module("f :: (xs: [4]i32, i: usize) -> i32 { return unchecked_index(xs, i); }");
    assert!(!function(&low, "f").commands.contains(&Command::Trap));
}

#[test]
fn pointers_into_arrays_are_built() {
    let low = module(
        "main :: () -> i32 {\n    values := [3]i32{10, 20, 30};\n    first := &values[0];\n    second := first + 1;\n    *second = 21;\n    return values[1];\n}\n",
    );
    assert!(function(&low, "main").commands.iter().any(|c| matches!(c, Command::Element { .. })));
}

#[test]
fn an_error_that_leaves_main_traps_behind_what_is_deferred() {
    let low = module(
        "note :: () { } read :: () -> i32 | i32 { return return_ok(7); } main :: () -> i32 { defer note(); value := read()?; return value; }",
    );
    let commands = &function(&low, "main").commands;
    let trap = commands.iter().position(|c| *c == Command::Trap).unwrap();
    let calls: Vec<usize> = (0..trap)
        .filter(|i| matches!(commands[*i], Command::Call { .. }))
        .collect();
    assert_eq!(calls.len(), 2);
    assert_eq!(commands[trap + 1], Command::Unreachable);
}
