use wasd::ast::Severity;
use wasd::lexer::{Lexer, TokenKind};

fn kinds(source: &str) -> Vec<TokenKind> {
    let (tokens, diagnostics) = Lexer::new(source).tokenize();
    assert!(
        diagnostics.is_empty(),
        "expected no diagnostics for {source:?}, got {diagnostics:?}"
    );
    tokens.into_iter().map(|t| t.kind).collect()
}

#[test]
fn tokenizes_minimal_iso7185_program() {
    let source = "program Hello;\nbegin\n  writeln('hi')\nend.\n";
    let kinds = kinds(source);
    assert_eq!(
        kinds,
        vec![
            TokenKind::Program,
            TokenKind::Identifier("Hello".to_string()),
            TokenKind::Semicolon,
            TokenKind::Begin,
            TokenKind::Identifier("writeln".to_string()),
            TokenKind::LParen,
            TokenKind::StringLiteral("hi".to_string()),
            TokenKind::RParen,
            TokenKind::End,
            TokenKind::Dot,
            TokenKind::Eof,
        ]
    );
}

#[test]
fn recognizes_ucsd_extension_tokens_without_dialect_error() {
    let kinds = kinds("unit Foo;\ninterface\nconst x = $1A;\n");
    assert_eq!(
        kinds,
        vec![
            TokenKind::Unit,
            TokenKind::Identifier("Foo".to_string()),
            TokenKind::Semicolon,
            TokenKind::Interface,
            TokenKind::Const,
            TokenKind::Identifier("x".to_string()),
            TokenKind::Eq,
            TokenKind::HexIntegerLiteral(0x1A),
            TokenKind::Semicolon,
            TokenKind::Eof,
        ]
    );
}

#[test]
fn ignores_both_comment_styles() {
    let kinds = kinds("var { this is a comment } x (* another comment *) : integer;");
    assert_eq!(
        kinds,
        vec![
            TokenKind::Var,
            TokenKind::Identifier("x".to_string()),
            TokenKind::Colon,
            TokenKind::Identifier("integer".to_string()),
            TokenKind::Semicolon,
            TokenKind::Eof,
        ]
    );
}

#[test]
fn recognizes_compiler_directive_distinct_from_comment() {
    let kinds = kinds("(*$I foo.pas*)");
    assert_eq!(
        kinds,
        vec![
            TokenKind::CompilerDirective {
                name: "I".to_string(),
                args: "foo.pas".to_string(),
            },
            TokenKind::Eof,
        ]
    );
}

#[test]
fn handles_quote_escaping_in_string_literal() {
    let kinds = kinds("'it''s'");
    assert_eq!(
        kinds,
        vec![TokenKind::StringLiteral("it's".to_string()), TokenKind::Eof,]
    );
}

#[test]
fn recovers_from_illegal_character_without_panicking() {
    let (tokens, diagnostics) = Lexer::new("x := 1 @ 2;").tokenize();
    assert_eq!(diagnostics.len(), 1);
    assert_eq!(diagnostics[0].severity, Severity::Error);

    let kinds: Vec<TokenKind> = tokens.into_iter().map(|t| t.kind).collect();
    assert_eq!(
        kinds,
        vec![
            TokenKind::Identifier("x".to_string()),
            TokenKind::Assign,
            TokenKind::IntegerLiteral(1),
            TokenKind::IntegerLiteral(2),
            TokenKind::Semicolon,
            TokenKind::Eof,
        ]
    );
}

#[test]
fn keywords_are_case_insensitive() {
    assert_eq!(kinds("Begin")[0], TokenKind::Begin);
    assert_eq!(kinds("BEGIN")[0], TokenKind::Begin);
    assert_eq!(kinds("begin")[0], TokenKind::Begin);
    assert_eq!(kinds("BeGiN")[0], TokenKind::Begin);
}

#[test]
fn tokenizes_real_literals_with_exponent() {
    let kinds = kinds("3.25 2.5e10 1e-3");
    assert_eq!(kinds.len(), 4);
    let values: Vec<f64> = kinds[..3]
        .iter()
        .map(|k| match k {
            TokenKind::RealLiteral(text) => text.parse::<f64>().unwrap(),
            other => panic!("expected a real literal, got {other:?}"),
        })
        .collect();
    assert_eq!(values, vec![3.25, 2.5e10, 1e-3]);
    assert_eq!(kinds[0], TokenKind::RealLiteral("3.25".to_string()));
    assert_eq!(kinds[3], TokenKind::Eof);
}

#[test]
fn does_not_confuse_range_dotdot_with_decimal_point() {
    let kinds = kinds("1..10");
    assert_eq!(
        kinds,
        vec![
            TokenKind::IntegerLiteral(1),
            TokenKind::DotDot,
            TokenKind::IntegerLiteral(10),
            TokenKind::Eof,
        ]
    );
}

#[test]
fn unterminated_string_literal_produces_diagnostic_and_continues() {
    let (tokens, diagnostics) = Lexer::new("x := 'abc").tokenize();
    assert_eq!(diagnostics.len(), 1);
    let kinds: Vec<TokenKind> = tokens.into_iter().map(|t| t.kind).collect();
    assert_eq!(
        kinds,
        vec![
            TokenKind::Identifier("x".to_string()),
            TokenKind::Assign,
            TokenKind::StringLiteral("abc".to_string()),
            TokenKind::Eof,
        ]
    );
}

