use compiler::cli::{
    comptime_diagnostic, dependency_text, diagnostic, format_file, module_diagnostic, module_roots,
    BuildOptions, FormatRequest, Invocation, ReflectRequest,
};
use compiler::comptime;
use compiler::floats::{FloatAnswer, FloatOp};
use compiler::interpreter;
use compiler::modules::{resolve, Contents, Project, ProjectError, SourceFile};
use compiler::pipeline::{self, FrontendError};

/// What the machine's floating-point numbers answer.
fn floats(op: FloatOp, a: String, b: String) -> FloatAnswer {
    let x: f64 = a.parse().unwrap_or(f64::NAN);
    let y: f64 = b.parse().unwrap_or(f64::NAN);
    let (value, truth) = match op {
        FloatOp::Canonical => (x, false),
        FloatOp::Add => (x + y, false),
        FloatOp::Subtract => (x - y, false),
        FloatOp::Multiply => (x * y, false),
        FloatOp::Divide => (x / y, false),
        FloatOp::Modulo => (x % y, false),
        FloatOp::Equal => (x, x == y),
        FloatOp::NotEqual => (x, x != y),
        FloatOp::Less => (x, x < y),
        FloatOp::LessEqual => (x, x <= y),
        FloatOp::Greater => (x, x > y),
        FloatOp::GreaterEqual => (x, x >= y),
    };
    FloatAnswer {
        number: format!("{value}"),
        truth,
    }
}

/// A project made of one file.
fn project(source: &str) -> Project {
    let root = "main.compy".to_string();
    let files = vec![file("main.compy", source, vec![])];
    resolve(&root, &files).unwrap()
}

fn file(path: &str, source: &str, found: Vec<Vec<&str>>) -> SourceFile {
    SourceFile {
        path: path.to_string(),
        contents: Contents::Text(source.to_string()),
        found: found
            .into_iter()
            .map(|list| list.into_iter().map(|p| p.to_string()).collect())
            .collect(),
    }
}

/// What `check` says of a program, where it says something.
fn complaint(source: &str) -> Option<String> {
    match project(source).analyze(usize::BITS, &floats) {
        Ok(_) => None,
        Err(error) => Some(diagnostic(
            &"main.compy".to_string(),
            &source.to_string(),
            &error,
        )),
    }
}

fn exit_code(source: &str) -> i32 {
    let typed = project(source).analyze_native(&floats).unwrap();
    interpreter::run(&typed, &floats).unwrap()
}

fn words(list: &[&str]) -> Vec<String> {
    list.iter().map(|w| w.to_string()).collect()
}

#[test]
fn check_rejects_invalid_programs() {
    let cases = [
        "main :: () -> i32 { return missing; }",
        "main :: () -> i32 { x :: 1; x = 2; return x; }",
        "main :: () -> i32 { x: i32 = 1; y: i64 = 2; return x + y; }",
    ];
    for source in cases {
        let message = complaint(source).unwrap();
        assert!(message.contains("semantic error"), "{message}");
    }
}

#[test]
fn diagnostics_include_file_line_and_column() {
    let message = complaint("main :: () -> i32 {\n    return missing;\n}\n").unwrap();
    assert!(message.contains("main.compy:2:12"), "{message}");
}

#[test]
fn build_requires_a_valid_main_entry_point() {
    for source in [
        "helper :: () {}",
        "main :: (arg: i32) -> i32 { return arg; }",
        "main :: () -> i64 { return 0; }",
        "main :: 1;",
    ] {
        let error = project(source).analyze_native(&floats).unwrap_err();
        assert!(error.to_string().contains("semantic error"));
    }
}

#[test]
fn build_rejects_semantically_invalid_program() {
    let message = complaint("main :: () -> i32 { return does_not_exist(1); }").unwrap();
    assert!(message.contains("semantic error"), "{message}");
}

#[test]
fn build_executable_preserves_exit_code() {
    assert_eq!(exit_code("main :: () -> i32 { return 37; }"), 37);
}

#[test]
fn builds_and_runs_core_loop_programs() {
    let cases = [
        (
            10,
            "main :: () -> i32 { i := 0; while i < 10 { i = i + 1; } return i; }",
        ),
        (
            7,
            "main :: () -> i32 { i := 0; while true { if i == 7 { break; } i = i + 1; } return i; }",
        ),
        (
            50,
            "main :: () -> i32 { i := 0; sum := 0; while i < 10 { i = i + 1; if i == 5 { continue; } sum = sum + i; } return sum; }",
        ),
        (
            6,
            "main :: () -> i32 { total := 0; i := 0; while i < 3 { i = i + 1; j := 0; while j < 3 { j = j + 1; if j == 1 { continue; } break; } total = total + i; } return total; }",
        ),
        (
            9,
            "main :: () -> i32 { i := 0; while i < 3 { if i == 1 { return 9; } i = i + 1; } return 0; }",
        ),
        (
            4,
            "main :: () -> i32 { i := 0; while i < 0 { i = i + 1; } return 4; }",
        ),
    ];
    for (expected, source) in cases {
        assert_eq!(exit_code(source), expected, "{source}");
    }
}

#[test]
fn rejects_invalid_loop_programs_before_codegen() {
    let cases = [
        "main :: () -> i32 { break; return 0; }",
        "main :: () -> i32 { continue; return 0; }",
        "main :: () -> i32 { while 1 { break; } return 0; }",
    ];
    for source in cases {
        let message = complaint(source).unwrap();
        assert!(message.contains("semantic error"), "{message}");
    }
}

#[test]
fn interpreter_honors_selected_target_layout() {
    let typed = project("main :: () -> usize { return size_of(*u8); }\n")
        .analyze(32, &floats)
        .unwrap();
    assert_eq!(
        interpreter::run_with_pointer_width(&typed, 32, &floats).unwrap(),
        4
    );
}

#[test]
fn formatter_formats_and_check_detects_drift() {
    let name = "format.compy".to_string();
    let source = "// keep\nmain::()->i32{if true{return 1;}return 0;}\n".to_string();
    let formatted = format_file(&name, &source, false).unwrap().unwrap();
    assert!(formatted.starts_with("// keep\n") && formatted.contains("    return 1;"));
    assert_eq!(format_file(&name, &formatted, true), Ok(None));
    let drifted = formatted.replace("    return", "return");
    assert_eq!(
        format_file(&name, &drifted, true),
        Err("format.compy is not formatted".to_string())
    );
}

#[test]
fn qualified_imports_and_exports_build() {
    let files = vec![
        file(
            "/p/main.compy",
            "import math; main :: () -> i32 { return math.add(2, 3); }",
            vec![vec!["/p/math.compy"]],
        ),
        file(
            "/p/math.compy",
            "export \"c\" add :: (a: i32, b: i32) -> i32 { return a + b; }",
            vec![],
        ),
    ];
    let project = resolve(&"/p/main.compy".to_string(), &files).unwrap();
    let typed = project.analyze_native(&floats).unwrap();
    assert_eq!(interpreter::run(&typed, &floats).unwrap(), 5);
    assert_eq!(project.graph.validate_typed(&typed), Ok(()));
}

#[test]
fn module_graph_exposes_stable_module_and_declaration_identities() {
    let files = vec![
        file(
            "/p/main.compy",
            "import lib; main :: () -> i32 { return lib.first() + lib.second(); }",
            vec![vec!["/p/lib.compy"]],
        ),
        file(
            "/p/lib.compy",
            "export first :: () -> i32 { return 1; } export second :: () -> i32 { return 2; }",
            vec![],
        ),
    ];
    let project = resolve(&"/p/main.compy".to_string(), &files).unwrap();
    assert_eq!(project.graph.modules.len(), 2);
    assert_eq!(project.graph.root, project.graph.modules[1].id);
    assert_eq!(project.graph.modules[0].imports.len(), 0);
    assert_eq!(
        project.graph.modules[1].imports[0].target,
        project.graph.modules[0].id
    );
    assert_eq!(project.graph.definitions.len(), 3);
    assert_eq!(
        project
            .graph
            .definitions
            .iter()
            .map(|definition| definition.id)
            .collect::<std::collections::HashSet<_>>()
            .len(),
        project.graph.definitions.len()
    );
    assert!(project.graph.definitions[0].module != project.graph.root);

    let graph = &project.graph;
    let root = graph.root;
    let lib = graph.import(root, "lib").unwrap();
    let second = graph.resolve_qualified(root, "lib", "second").unwrap();
    assert_eq!(graph.resolve_local(lib, "second"), Some(second));
    assert_eq!(graph.definition(second).unwrap().source_name, "second");
    assert_eq!(graph.definition(second).unwrap().linker_name, "second");
    assert_eq!(graph.lookup(root, "second"), None);
    assert_eq!(graph.lookup_qualified(root, "other", "second"), None);
    assert_eq!(graph.module(lib).unwrap().path, "/p/lib.compy");
}

#[test]
fn private_imports_are_rejected_and_dependencies_are_reported() {
    let lib = file("/p/lib.compy", "hidden :: () -> i32 { return 1; }", vec![]);
    let root = "/p/main.compy".to_string();
    let files = vec![
        file(
            "/p/main.compy",
            "import lib; main :: () -> i32 { return lib.hidden(); }",
            vec![vec!["/p/lib.compy"]],
        ),
        lib.clone(),
    ];
    let error = resolve(&root, &files).unwrap_err();
    assert!(error.to_string().contains("not exported"));
    let files = vec![
        file(
            "/p/main.compy",
            "import lib; main :: () -> i32 { return 0; }",
            vec![vec!["/p/lib.compy"]],
        ),
        lib,
    ];
    let project = resolve(&root, &files).unwrap();
    assert_eq!(
        project.graph.definitions[0].linker_name,
        "__module_0_hidden"
    );
    let deps = dependency_text(&"program".to_string(), &project.dependencies);
    assert!(deps.contains("lib.compy") && deps.contains("main.compy"));
    assert_eq!(deps, "program: /p/lib.compy /p/main.compy\n");
}

#[test]
fn missing_cycles_and_duplicate_imports_fail_cleanly() {
    let root = "/p/main.compy".to_string();
    let missing = vec![file(
        "/p/main.compy",
        "import missing; main :: () -> i32 { return 0; }",
        vec![vec![]],
    )];
    let error = resolve(&root, &missing).unwrap_err();
    assert!(error.to_string().contains("was not found"));
    assert_eq!(
        module_diagnostic(
            &root,
            &"import missing; main :: () -> i32 { return 0; }".to_string(),
            &error
        ),
        "error: module error: module `missing` imported by `/p/main.compy` was not found at /p/main.compy:1:1"
    );
    let cycle = vec![
        file(
            "/p/main.compy",
            "import lib; main :: () -> i32 { return 0; }",
            vec![vec!["/p/lib.compy"]],
        ),
        file(
            "/p/lib.compy",
            "import main; export \"c\" x :: () -> i32 { return 0; }",
            vec![vec!["/p/main.compy"]],
        ),
    ];
    let error = resolve(&root, &cycle).unwrap_err();
    assert!(error.to_string().contains("cycle"));
    assert_eq!(
        error.to_string(),
        "module import cycle: /p/main.compy -> /p/lib.compy -> /p/main.compy"
    );
    let twice = vec![
        file(
            "/p/main.compy",
            "import lib; import lib; main :: () -> i32 { return 0; }",
            vec![vec!["/p/lib.compy"], vec!["/p/lib.compy"]],
        ),
        file(
            "/p/lib.compy",
            "export \"c\" x :: () -> i32 { return 0; }",
            vec![],
        ),
    ];
    let error = resolve(&root, &twice).unwrap_err();
    assert!(error.to_string().contains("duplicate module alias"));
    let many = vec![file(
        "/p/main.compy",
        "import lib; main :: () -> i32 { return 0; }",
        vec![vec!["/a/lib.compy", "/b/lib.compy"]],
    )];
    let error = resolve(&root, &many).unwrap_err();
    assert_eq!(
        error.to_string(),
        "ambiguous module `lib`: /a/lib.compy, /b/lib.compy"
    );
}

#[test]
fn unreadable_and_unparsable_modules_are_named() {
    let root = "/p/main.compy".to_string();
    let mut files = vec![
        file(
            "/p/main.compy",
            "import lib; main :: () -> i32 { return 0; }",
            vec![vec!["/p/lib.compy"]],
        ),
        SourceFile {
            path: "/p/lib.compy".to_string(),
            contents: Contents::Unreadable("permission denied".to_string()),
            found: vec![],
        },
    ];
    assert_eq!(
        resolve(&root, &files).unwrap_err().to_string(),
        "could not read module `/p/lib.compy`: permission denied"
    );
    files[1].contents = Contents::Text("@".to_string());
    assert_eq!(
        resolve(&root, &files).unwrap_err().to_string(),
        "in module `/p/lib.compy`: lexer error: unexpected character '@'"
    );
    files.remove(1);
    assert_eq!(
        resolve(&root, &files).unwrap_err().to_string(),
        "could not read module `/p/lib.compy`: file is not loaded"
    );
    files.remove(0);
    assert_eq!(
        resolve(&root, &files).unwrap_err().to_string(),
        "could not read `/p/main.compy`: file is not loaded"
    );
}

#[test]
fn names_of_other_modules_are_rewritten_and_locals_are_not() {
    let files = vec![
        file(
            "/p/main.compy",
            "import lib; one :: i32 = 5; main :: () -> i32 { p := lib.Pair{x = 1, y = one}; one := 2; return p.x + p.y + one + lib.sum(p); }",
            vec![vec!["/p/lib.compy"]],
        ),
        file(
            "/p/lib.compy",
            "export Pair :: struct { x: i32; y: i32; } one :: i32 = 30; export sum :: (p: Pair) -> i32 { return p.x + p.y + one; }",
            vec![],
        ),
    ];
    let project = resolve(&"/p/main.compy".to_string(), &files).unwrap();
    let typed = project.analyze_native(&floats).unwrap();
    assert_eq!(interpreter::run(&typed, &floats).unwrap(), 1 + 5 + 2 + 36);
}

#[test]
fn search_places_start_beside_the_importing_file() {
    let places = compiler::modules::search_places(false, 1);
    let shown: Vec<_> = places.iter().map(|p| (p.root, p.adds_ending)).collect();
    assert_eq!(
        shown,
        vec![(None, false), (None, true), (Some(0), false), (Some(0), true)]
    );
    assert_eq!(compiler::modules::search_places(true, 2).len(), 3);
}

#[test]
fn build_options_are_read() {
    let options = BuildOptions::parse(&words(&[
        "-o", "out", "-g", "-O2", "-I", "lib", "-L", "/l", "-l", "m", "--object", "a.o",
        "--target", "t", "--linker", "cc", "--link-arg", "-s", "--depfile", "d", "--emit-exe",
    ]))
    .unwrap();
    assert_eq!(options.output, Some("out".to_string()));
    assert_eq!(options.library_paths, words(&["/l"]));
    assert_eq!(options.libraries, words(&["m"]));
    assert_eq!(options.objects, words(&["a.o"]));
    assert_eq!(options.target, Some("t".to_string()));
    assert_eq!(options.linker, Some("cc".to_string()));
    assert_eq!(options.link_args, words(&["-s"]));
    assert_eq!(options.depfile, Some("d".to_string()));
    assert_eq!(options.opt_level, 2);
    assert!(options.emit_executable && options.debug && !options.emit_ir);
    assert!(options.links());
    assert_eq!(options.default_ending(), None);
    assert_eq!(
        options.link_arguments(&"m.o".to_string(), &"m".to_string()),
        words(&["--target=t", "m.o", "a.o", "-L", "/l", "-l", "m", "-s", "-o", "m"])
    );
}

#[test]
fn build_options_that_make_no_sense_are_refused() {
    let fails = |list: &[&str]| BuildOptions::parse(&words(list)).unwrap_err();
    assert_eq!(fails(&["-o"]), "missing value after `-o`");
    assert_eq!(fails(&["--what"]), "unknown build argument `--what`");
    assert_eq!(
        fails(&["-O", "4"]),
        "optimization level must be 0, 1, 2, or 3"
    );
    assert_eq!(
        fails(&["-O", "x"]),
        "optimization level must be 0, 1, 2, or 3"
    );
    assert_eq!(
        fails(&["--emit-ir", "--emit-asm"]),
        "artifact emission options are mutually exclusive"
    );
    assert_eq!(BuildOptions::parse(&words(&["-O", "+1"])).unwrap().opt_level, 1);
    assert_eq!(
        BuildOptions::parse(&words(&["--emit-obj"]))
            .unwrap()
            .default_ending(),
        Some("o")
    );
}

#[test]
fn module_roots_are_read() {
    assert_eq!(
        module_roots(&words(&["-g", "-I", "a", "--module-root", "b"])),
        Ok(words(&["a", "b"]))
    );
    assert_eq!(
        module_roots(&words(&["-I"])),
        Err("missing module root".to_string())
    );
}

#[test]
fn commands_are_told_apart() {
    assert_eq!(Invocation::parse(&words(&["compiler"])), Invocation::Usage);
    assert_eq!(
        Invocation::parse(&words(&["compiler", "fmt"])),
        Invocation::Format { arguments: vec![] }
    );
    assert_eq!(
        Invocation::parse(&words(&["compiler", "run"])),
        Invocation::Usage
    );
    assert_eq!(
        Invocation::parse(&words(&["compiler", "lex", "f"])),
        Invocation::Lex { file: "f".to_string() }
    );
    assert_eq!(
        Invocation::parse(&words(&["compiler", "lex", "f", "g"])),
        Invocation::Usage
    );
    assert_eq!(
        Invocation::parse(&words(&["compiler", "interpret", "f", "-g"])),
        Invocation::Run { file: "f".to_string(), arguments: words(&["-g"]) }
    );
    assert_eq!(
        Invocation::parse(&words(&["compiler", "compile", "f"])),
        Invocation::Build { file: "f".to_string(), arguments: vec![] }
    );
    assert_eq!(
        Invocation::parse(&words(&["compiler", "what", "f"])),
        Invocation::Unknown { command: "what".to_string() }
    );
}

#[test]
fn requests_to_format_and_to_reflect_are_read() {
    let request = FormatRequest::parse(&words(&["a", "--check", "b"])).unwrap();
    assert!(request.check);
    assert_eq!(request.files, words(&["a", "b"]));
    assert_eq!(
        FormatRequest::parse(&words(&["--check"])).unwrap_err(),
        "usage: compiler fmt [--check] <files...>"
    );
    assert_eq!(
        ReflectRequest::parse(&words(&["function", "f"])),
        Ok(ReflectRequest::Function { name: "f".to_string() })
    );
    assert_eq!(
        ReflectRequest::parse(&words(&["T"])),
        Ok(ReflectRequest::Type { name: "T".to_string() })
    );
    assert_eq!(
        ReflectRequest::parse(&words(&["module", "f"])),
        Ok(ReflectRequest::UnknownKind)
    );
    assert!(ReflectRequest::parse(&[].to_vec()).is_err());
}

#[test]
fn errors_at_compile_time_name_their_line() {
    let source = "main :: () {}\n#validate(false, \"no\");".to_string();
    let program = pipeline::parse_source(&source).unwrap();
    let error = comptime::expand(&program, 64, &floats).unwrap_err();
    let text = comptime_diagnostic(&"f".to_string(), &source, &error);
    assert!(text.starts_with("comptime error: ") && text.ends_with(" at f:2"), "{text}");
}

#[test]
fn errors_of_every_stage_name_it() {
    let stage = |source: &str| match pipeline::analyze_source(source, &floats) {
        Ok(_) => "none",
        Err(error) => error.stage(),
    };
    assert_eq!(stage("@"), "lexer");
    assert_eq!(stage("main"), "parser");
    assert_eq!(stage("main :: () -> i32 { return x; }"), "semantic");
    assert_eq!(stage("#validate(false, \"no\"); main :: () {}"), "comptime");
    assert_eq!(stage("main :: () {}"), "none");
    let error: FrontendError = pipeline::parse_source("@").unwrap_err();
    assert_eq!(error.to_string(), "lexer error: unexpected character '@'");
    let error = ProjectError {
        message: "m".to_string(),
        span: error.span(),
    };
    assert_eq!(error.to_string(), "m");
}

#[test]
fn help_programs_run() {
    assert_eq!(
        exit_code(
            "Pair :: struct {\n    left: i32;\n    right: i32;\n}\n\nsum :: (pair: Pair) -> i32 {\n    return pair.left + pair.right;\n}\n\nmain :: () -> i32 {\n    pair := Pair{left = 20, right = 22};\n    return sum(pair);\n}\n"
        ),
        42
    );
    assert_eq!(
        exit_code(
            "Packet :: struct {\n    tag: u8;\n    payload: i32;\n}\n\npacket_size :: #size_of(Packet);\n#validate(packet_size > 0, \"Packet must have a layout\");\n#generate_constant(\"answer\", 42);\n\nmain :: () -> i32 {\n    return answer;\n}\n"
        ),
        42
    );
    assert_eq!(
        exit_code(
            "read :: (value: i32) -> i32 | i32 {\n    if value < 0 {\n        return return_err(1);\n    }\n    return return_ok(value);\n}\n\nmain :: () -> i32 {\n    value := read(7)?;\n    return value;\n}\n"
        ),
        7
    );
}

#[test]
fn an_error_that_leaves_main_ends_the_run() {
    let run = |source: &str| {
        let typed = project(source).analyze(usize::BITS, &floats).unwrap();
        interpreter::run(&typed, &floats).map_err(|e| e.to_string())
    };
    let read = "read :: (value: i32) -> i32 | i32 { if value < 0 { return return_err(1); } return return_ok(value); }";
    assert_eq!(
        run(&format!("{read} main :: () -> i32 {{ value := read(0 - 7)?; return value; }}")),
        Err("an error left function `main`".to_string())
    );
    assert_eq!(run(&format!("{read} main :: () -> i32 {{ return read(3)? + read(4)?; }}")), Ok(7));
}

#[test]
fn errors_are_handed_on_from_everywhere() {
    let start = "fail :: () -> i32 | i32 { return return_err(5); } test :: () -> bool | i32 { return return_err(6); } ";
    let failed = |body: &str| {
        exit_code(&format!(
            "{start} work :: () -> i32 | i32 {{ xs := [2]i32{{1, 2}}; {body} return return_ok(0); }} main :: () -> i32 {{ if is_err(work()) {{ return 1; }} return 0; }}"
        ))
    };
    assert_eq!(failed("x := fail()? + 1;"), 1);
    assert_eq!(failed("xs[0] = fail()?;"), 1);
    assert_eq!(failed("if test()? { return return_ok(1); }"), 1);
    assert_eq!(failed("while test()? { }"), 1);
    assert_eq!(failed("return return_ok(fail()?);"), 1);
    assert_eq!(failed("x := is_err(fail());"), 0);
    // A result that is an error is no error that is handed on.
    assert_eq!(
        exit_code(
            "one :: () -> i32 | i32 { return return_ok(1); } flip :: (n: i32) -> i32 | i32 { return return_err(n); } work :: () -> i32 | i32 { r := flip(one()?); if is_err(r) { return return_ok(8); } return return_ok(9); } main :: () -> i32 { return unwrap(work()); }"
        ),
        8
    );
}

#[test]
fn what_is_deferred_before_an_error_runs() {
    let start = "trace : i32 = 0; note :: (n: i32) { trace = trace * 10 + n; } fail :: () -> i32 | i32 { return return_err(5); } ";
    let traced = |body: &str| {
        exit_code(&format!(
            "{start} work :: () -> i32 | i32 {{ {body} return return_ok(0); }} main :: () -> i32 {{ r := work(); return trace; }}"
        ))
    };
    assert_eq!(traced("defer note(1); x := fail()?; if x > 0 { note(7); }"), 1);
    assert_eq!(traced("x := fail()?; defer note(1); note(x);"), 0);
    assert_eq!(traced("defer note(1); defer note(2); x := fail()?; defer note(3); note(x);"), 21);
    assert_eq!(traced("defer note(1); return return_ok(fail()?);"), 1);
    assert_eq!(traced("defer note(1); if true { defer note(2); x := fail()?; }"), 21);
    assert_eq!(traced("defer note(1); if true { defer note(2); } x := fail()?; "), 21);
    assert_eq!(traced("defer note(1); while true { defer note(2); x := fail()?; }"), 21);
    assert_eq!(traced("defer note(1); note(3);"), 31);
}

#[test]
fn results_are_inspected_and_propagated() {
    let read = "read :: (value: i32) -> i32 | i32 {\n    if value < 0 {\n        return return_err(1);\n    }\n    return return_ok(value);\n}\n";
    assert_eq!(
        exit_code(&format!(
            "{read} twice :: (v: i32) -> i32 | i32 {{ x := read(v)?; return return_ok(x * 2); }} main :: () -> i32 {{ if is_err(twice(0 - 1)) {{ return unwrap(twice(7)); }} return 0; }}"
        )),
        14
    );
}

#[test]
fn deferred_calls_run_last_to_first() {
    let source = "trace : i32 = 0; note :: (n: i32) { trace = trace * 10 + n; } work :: () { defer note(1); defer note(2); note(3); } main :: () -> i32 { work(); return trace; }";
    assert_eq!(exit_code(source), 321);
}

#[test]
fn the_interpreter_traps() {
    let run = |source: &str| {
        let typed = project(source).analyze(usize::BITS, &floats).unwrap();
        interpreter::run(&typed, &floats).map_err(|e| e.to_string())
    };
    assert!(run("main :: () -> i32 { zero := 0; return 1 / zero; }").is_err());
    assert!(run("main :: () -> i32 { xs := [2]i32{1, 2}; i : usize = 5; return xs[i]; }").is_err());
    assert!(run("main :: () -> i32 { while true { } return 0; }").is_err());
    assert_eq!(run("main :: () -> i32 { x := 2.5; if x * 2.0 == 5.0 { return 1; } return 0; }"), Ok(1));
}

#[test]
fn writes_are_read_back_and_leave_the_rest() {
    let source = "Pair :: struct { left: i32; right: i32; } main :: () -> i32 { xs := [3]i32{1, 2, 3}; p := Pair{left = 4, right = 5}; i : usize = 1; xs[i] = 9; p.right = 7; return xs[0] * 1000 + xs[1] * 100 + p.left * 10 + p.right; }";
    assert_eq!(exit_code(source), 1947);
}
