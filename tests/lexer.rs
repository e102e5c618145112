use drn_editor::tesl::compiler::Compiler;
use drn_editor::tesl::lexer::{Lexer, LexerItem};
use drn_editor::tesl::parser::Parser;

#[test]
fn scan_variable() {
    let input = r#"
        int a = 1
        str b="test un"
    "#;
    assert_eq!(
        Lexer::new().scan(input),
        vec![
            LexerItem::NewLine,
            LexerItem::Literal("int".into()),
            LexerItem::Literal("a".into()),
            LexerItem::Operator("=".into()),
            LexerItem::Literal("1".into()),
            LexerItem::NewLine,
            LexerItem::Literal("str".into()),
            LexerItem::Literal("b".into()),
            LexerItem::Operator("=".into()),
            LexerItem::Separator("\"".into()),
            LexerItem::Literal("test un".into()),
            LexerItem::Separator("\"".into()),
            LexerItem::NewLine,
        ]
    )
}

#[test]
fn scan_operation() {
    let input = r#"int c = a + 2"#;
    assert_eq!(
        Lexer::new().scan(input),
        vec![
            LexerItem::Literal("int".into()),
            LexerItem::Literal("c".into()),
            LexerItem::Operator("=".into()),
            LexerItem::Literal("a".into()),
            LexerItem::Operator("+".into()),
            LexerItem::Literal("2".into()),
        ]
    )
}

#[test]
fn scan_for_loop() {
    let input = r#"
        for i in 1..10 {
            print(i)
        }
        "#;
    assert_eq!(
        Lexer::new().scan(input),
        vec![
            LexerItem::NewLine,
            LexerItem::Literal("for".into()),
            LexerItem::Literal("i".into()),
            LexerItem::Literal("in".into()),
            LexerItem::Literal("1".into()),
            LexerItem::Separator(".".into()),
            LexerItem::Separator(".".into()),
            LexerItem::Literal("10".into()),
            LexerItem::Separator("{".into()),
            LexerItem::NewLine,
            LexerItem::Literal("print".into()),
            LexerItem::Separator("(".into()),
            LexerItem::Literal("i".into()),
            LexerItem::Separator(")".into()),
            LexerItem::NewLine,
            LexerItem::Separator("}".into()),
            LexerItem::NewLine,
        ]
    )
}

#[test]
fn scan_keeps_earlier_items() {
    let mut lexer = Lexer::new();
    lexer.scan("a");
    assert_eq!(
        lexer.scan("= b"),
        vec![
            LexerItem::Literal("a".into()),
            LexerItem::Operator("=".into()),
            LexerItem::Literal("b".into()),
        ]
    );
}

#[test]
fn scan_empty_string_literal() {
    assert_eq!(
        Lexer::new().scan("''"),
        vec![
            LexerItem::Separator("'".into()),
            LexerItem::Literal("".into()),
            LexerItem::Separator("'".into()),
        ]
    );
}

#[test]
fn compiler_starts_empty() {
    let mut compiler = Compiler::new();
    assert_eq!(compiler.lexer.scan(""), vec![]);
    Parser::parse("int a = 1");
    let _ = Parser::new();
}
