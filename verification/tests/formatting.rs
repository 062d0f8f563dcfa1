use compiler::formatter::format_source;

fn formatted(source: &str) -> String {
    format_source(source).unwrap()
}

#[test]
fn formatter_is_idempotent_and_keeps_comments() {
    let s = "// keep\nmain::()->i32{return 1;}";
    let once = format_source(s).unwrap();
    assert!(once.contains("// keep"));
    assert!(compiler::pipeline::parse_source(&once).is_ok());
    assert_eq!(format_source(&once).unwrap(), once);
}

#[test]
fn blocks_are_indented() {
    assert_eq!(
        formatted("main::()->i32{if true{return 1;}else{x=2;}return f(1,2)[0].y;}"),
        "main :: () -> i32 {\n    if true {\n        return 1;\n    } else {\n        x = 2;\n    }\n    return f (1, 2)[0].y;\n}\n"
    );
}

#[test]
fn comments_stay_where_they_are() {
    assert_eq!(
        formatted("a // one  \nb /* two\n three */ c \"// no\""),
        "a // one\nb /* two\n three */\nc \"// no\"\n"
    );
    assert_eq!(formatted("// only\u{a0}"), "// only\n");
    assert_eq!(formatted(""), "\n");
}

#[test]
fn texts_without_tokens_are_refused() {
    assert_eq!(
        format_source("a @"),
        Err("unexpected character '@' at 2..3".to_string())
    );
    assert_eq!(
        format_source("/* x"),
        Err("unterminated block comment at 0..4".to_string())
    );
}

#[test]
fn formatting_twice_changes_nothing_where_tokens_stay_apart() {
    for source in [
        "x:i32=-1;y:=a[0]+b(1,2).c;",
        "fn f(a:i32){return;}\n\n\n// end",
        "a::struct{x:i32;}b:=a{x=1};",
        "f :: () { /* a */ /* b */ ; }",
        "1.5.x ... y :: = z",
        "x := \"a  b\" ;",
    ] {
        let once = formatted(source);
        assert_eq!(formatted(&once), once, "{source}");
    }
}

#[test]
fn tokens_that_run_together_are_read_otherwise() {
    let once = formatted("a : : b");
    assert_eq!(once, "a:: b\n");
    assert_eq!(formatted(&once), "a :: b\n");
    let once = formatted("(x // c\n) { y }");
    assert_eq!(once, "(x // c){\n    y\n}\n");
    assert_ne!(formatted(&once), once);
}

#[test]
fn programs_are_formatted_once() {
    let source = "import  \"a/b.compy\" ;P::struct{x:i32;y:[2]i32;}f::(p:P,q:*i32)->i32|i32{defer g ( 1 );v:=P{x=1,y=[2]i32{1,2}};if v.x==1&&q!=null{return return_ok(v . y [0]);}return return_err(-2);}#validate(1<2,\"no\");";
    let once = formatted(source);
    assert_eq!(formatted(&once), once);
    let words = |text: &str| {
        compiler::pipeline::lex_source(text)
            .unwrap()
            .iter()
            .map(|t| (t.kind, t.lexeme.to_string()))
            .collect::<Vec<_>>()
    };
    assert_eq!(words(&once), words(source));
    assert!(compiler::pipeline::parse_source(source).is_ok());
}
