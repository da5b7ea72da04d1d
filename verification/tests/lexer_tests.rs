use jutsu::lexer::{tokenize, TokenKind};

fn kinds(src: &str) -> Vec<TokenKind> {
    tokenize(src).iter().map(|t| t.kind).collect()
}

fn texts(src: &str) -> Vec<String> {
    tokenize(src).iter().map(|t| t.text.clone()).collect()
}

#[test]
fn let_statement_tokens() {
    assert_eq!(
        kinds("let dog = 100"),
        vec![TokenKind::Let, TokenKind::Identifier, TokenKind::Equal, TokenKind::Number]
    );
    assert_eq!(texts("let dog = 100"), vec!["let", "dog", "=", "100"]);
}

#[test]
fn keywords_are_not_identifiers() {
    assert_eq!(
        kinds("vessel worker shield veil recv share rag infer"),
        vec![
            TokenKind::Vessel,
            TokenKind::Worker,
            TokenKind::Shield,
            TokenKind::Veil,
            TokenKind::Recv,
            TokenKind::Share,
            TokenKind::Rag,
            TokenKind::Infer,
        ]
    );
    assert_eq!(kinds("letter worker_1"), vec![TokenKind::Identifier, TokenKind::Identifier]);
}

#[test]
fn two_character_operators() {
    assert_eq!(
        kinds("== != <= >= && || < > = !"),
        vec![
            TokenKind::EqualEqual,
            TokenKind::NotEqual,
            TokenKind::LessEqual,
            TokenKind::GreaterEqual,
            TokenKind::And,
            TokenKind::Or,
            TokenKind::LessThan,
            TokenKind::GreaterThan,
            TokenKind::Equal,
            TokenKind::Bang,
        ]
    );
}

#[test]
fn numbers_with_fractions() {
    assert_eq!(texts("0.85 42"), vec!["0.85", "42"]);
    assert_eq!(kinds("0.85 42"), vec![TokenKind::Number, TokenKind::Number]);
}

#[test]
fn string_literals_keep_their_quotes() {
    assert_eq!(texts("\"a b\" \"\"\"x\ny\"\"\""), vec!["\"a b\"", "\"\"\"x\ny\"\"\""]);
    assert_eq!(kinds("\"a b\""), vec![TokenKind::StringLiteral]);
}

#[test]
fn comments_and_stray_characters_are_skipped() {
    assert_eq!(kinds("// nothing here\n# x"), vec![TokenKind::Identifier]);
    assert_eq!(kinds(""), Vec::<TokenKind>::new());
}

#[test]
fn punctuation() {
    assert_eq!(
        kinds("( ) [ ] { } , . :"),
        vec![
            TokenKind::ParenOpen,
            TokenKind::ParenClose,
            TokenKind::BracketOpen,
            TokenKind::BracketClose,
            TokenKind::BraceOpen,
            TokenKind::BraceClose,
            TokenKind::Comma,
            TokenKind::Dot,
            TokenKind::Colon,
        ]
    );
}
