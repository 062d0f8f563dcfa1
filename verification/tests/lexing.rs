use compiler::lexer::{LexError, Lexer, Span, Token, TokenKind};
use compiler::source::{SourceMap, SourcePosition};

fn lex_all(source: &str) -> Vec<Token> {
    let mut lexer = Lexer::new(source);
    let mut tokens = Vec::new();

    loop {
        let token = lexer.next_token().expect("lexing failed");

        let done = token.kind == TokenKind::Eof;

        tokens.push(token);

        if done {
            break;
        }
    }

    tokens
}

#[test]
fn lex_keywords_and_identifiers() {
    let tokens = lex_all("fn main let value return while break continue");

    let kinds: Vec<_> = tokens.iter().map(|token| token.kind).collect();

    assert_eq!(
        kinds,
        vec![
            TokenKind::Fn,
            TokenKind::Identifier,
            TokenKind::Let,
            TokenKind::Identifier,
            TokenKind::Return,
            TokenKind::While,
            TokenKind::Break,
            TokenKind::Continue,
            TokenKind::Eof,
        ]
    );

    assert_eq!(tokens[1].lexeme, "main");
    assert_eq!(tokens[3].lexeme, "value");
}

#[test]
fn lex_numbers() {
    let tokens = lex_all("123 1_000 12.34 1_000.25");

    assert_eq!(tokens[0].kind, TokenKind::Integer);
    assert_eq!(tokens[0].lexeme, "123");

    assert_eq!(tokens[1].kind, TokenKind::Integer);
    assert_eq!(tokens[1].lexeme, "1_000");

    assert_eq!(tokens[2].kind, TokenKind::Float);
    assert_eq!(tokens[2].lexeme, "12.34");

    assert_eq!(tokens[3].kind, TokenKind::Float);
    assert_eq!(tokens[3].lexeme, "1_000.25");

    assert_eq!(tokens[4].kind, TokenKind::Eof);
}

#[test]
fn lex_punctuation() {
    let tokens = lex_all("() [] {} , ; : := :: .");

    let kinds: Vec<_> = tokens.iter().map(|token| token.kind).collect();

    assert_eq!(
        kinds,
        vec![
            TokenKind::LParen,
            TokenKind::RParen,
            TokenKind::LBracket,
            TokenKind::RBracket,
            TokenKind::LBrace,
            TokenKind::RBrace,
            TokenKind::Comma,
            TokenKind::Semicolon,
            TokenKind::Colon,
            TokenKind::ColonEqual,
            TokenKind::DoubleColon,
            TokenKind::Dot,
            TokenKind::Eof,
        ]
    );
}

#[test]
fn lex_two_character_operators() {
    let tokens = lex_all("== != <= >= << >> -> => && ||");

    let kinds: Vec<_> = tokens.iter().map(|token| token.kind).collect();

    assert_eq!(
        kinds,
        vec![
            TokenKind::EqualEqual,
            TokenKind::BangEqual,
            TokenKind::LessEqual,
            TokenKind::GreaterEqual,
            TokenKind::ShiftLeft,
            TokenKind::ShiftRight,
            TokenKind::Arrow,
            TokenKind::FatArrow,
            TokenKind::AmpersandAmpersand,
            TokenKind::PipePipe,
            TokenKind::Eof,
        ]
    );
}

#[test]
fn comments_are_ignored() {
    let tokens = lex_all(
        r#"
        // this is a comment
        fn main() {
            /* another comment */
            let x = 42;
        }
        "#,
    );

    let kinds: Vec<_> = tokens.iter().map(|token| token.kind).collect();

    assert_eq!(
        kinds,
        vec![
            TokenKind::Fn,
            TokenKind::Identifier,
            TokenKind::LParen,
            TokenKind::RParen,
            TokenKind::LBrace,
            TokenKind::Let,
            TokenKind::Identifier,
            TokenKind::Equal,
            TokenKind::Integer,
            TokenKind::Semicolon,
            TokenKind::RBrace,
            TokenKind::Eof,
        ]
    );
}

#[test]
fn spans_point_into_original_source() {
    let source = "fn main()";

    let tokens = lex_all(source);

    assert_eq!(tokens[0].span, Span::new(0, 2));
    assert_eq!(tokens[0].lexeme, "fn");

    assert_eq!(tokens[1].span, Span::new(3, 7));
    assert_eq!(tokens[1].lexeme, "main");

    assert_eq!(tokens[2].span, Span::new(7, 8));
    assert_eq!(tokens[2].lexeme, "(");
}

#[test]
fn unexpected_character_is_an_error() {
    let mut lexer = Lexer::new("@");

    let error = lexer.next_token().unwrap_err();

    assert_eq!(
        error,
        LexError::UnexpectedCharacter {
            character: '@',
            span: Span::new(0, 1),
        }
    );
}

#[test]
fn unterminated_block_comment_is_an_error() {
    let mut lexer = Lexer::new("/* hello");

    let error = lexer.next_token().unwrap_err();

    assert_eq!(
        error,
        LexError::UnterminatedBlockComment {
            span: Span::new(0, 8),
        }
    );
}

#[test]
fn maps_beginning_middle_and_end_of_lines() {
    let map = SourceMap::new("abc\ndef\nghi");
    assert_eq!(map.position(0), SourcePosition { line: 1, column: 1 });
    assert_eq!(map.position(5), SourcePosition { line: 2, column: 2 });
    assert_eq!(map.position(10), SourcePosition { line: 3, column: 3 });
    assert_eq!(map.position(11), SourcePosition { line: 3, column: 4 });
}

#[test]
fn columns_are_utf8_bytes() {
    let map = SourceMap::new("éx");
    assert_eq!(map.position(2), SourcePosition { line: 1, column: 3 });
}

#[test]
fn errors_print_the_character_and_the_place() {
    let error = Lexer::new("x @").next_token();
    assert!(error.is_ok());
    let mut lexer = Lexer::new("x @");
    let _ = lexer.next_token();
    let error = lexer.next_token().unwrap_err();
    assert_eq!(error.to_string(), "unexpected character '@' at 2..3");
    let mut lexer = Lexer::new("\u{7f}");
    let error = lexer.next_token().unwrap_err();
    assert_eq!(error.to_string(), "unexpected character '\\u{7f}' at 0..1");
    let mut lexer = Lexer::new("/* x");
    let error = lexer.next_token().unwrap_err();
    assert_eq!(error.to_string(), "unterminated block comment at 0..4");
}

#[test]
fn the_end_comes_again_and_again() {
    let mut lexer = Lexer::new("  ");
    assert_eq!(lexer.next_token().unwrap().kind, TokenKind::Eof);
    assert_eq!(lexer.next_token().unwrap().kind, TokenKind::Eof);
}

#[test]
fn tokens_read_what_stands_in_the_source() {
    let source = "a+\"\u{e9}\" b";
    for token in lex_all(source) {
        assert_eq!(&source[token.span.start..token.span.end], token.lexeme);
    }
}

#[test]
fn a_dot_without_digits_is_no_fraction() {
    let kinds: Vec<_> = lex_all("1.x 1..2 ...").iter().map(|t| t.kind).collect();
    assert_eq!(
        kinds,
        vec![
            TokenKind::Integer,
            TokenKind::Dot,
            TokenKind::Identifier,
            TokenKind::Integer,
            TokenKind::Dot,
            TokenKind::Dot,
            TokenKind::Integer,
            TokenKind::Ellipsis,
            TokenKind::Eof,
        ]
    );
}

#[test]
fn positions_count_from_one() {
    let map = SourceMap::new("a\n\nb");
    assert_eq!(map.position(1), SourcePosition { line: 1, column: 2 });
    assert_eq!(map.position(2), SourcePosition { line: 2, column: 1 });
    let (start, end) = map.span_positions(Span::new(0, 3));
    assert_eq!(start, SourcePosition { line: 1, column: 1 });
    assert_eq!(end, SourcePosition { line: 3, column: 1 });
}

#[test]
fn kinds_print_their_names() {
    assert_eq!(TokenKind::Arrow.to_string(), "Arrow");
    assert_eq!(TokenKind::Eof.to_string(), "Eof");
}
