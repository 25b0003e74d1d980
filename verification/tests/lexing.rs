use archic::lexer::{lex, LexOutcome};
use archic::parser::Tok;

fn tokens(src: &str) -> Vec<Tok> {
    match lex(src) {
        LexOutcome::Tokens(ts) => ts,
        LexOutcome::Failed(p) => panic!("lexing failed at {}", p),
        LexOutcome::Overflow => panic!("literal overflow"),
    }
}

fn ident(s: &str) -> Tok {
    Tok::Ident(s.to_string())
}

#[test]
fn lex_small_function() {
    assert_eq!(
        tokens("u32 main() { return 0x1F; }"),
        vec![
            Tok::U32,
            ident("main"),
            Tok::LParen,
            Tok::RParen,
            Tok::LBrace,
            Tok::Return,
            Tok::IntLit(31),
            Tok::Semi,
            Tok::RBrace,
        ]
    );
}

#[test]
fn lex_keywords_and_identifiers() {
    assert_eq!(
        tokens("void u32 return if while voidx returned _if if2 W_1"),
        vec![
            Tok::Void,
            Tok::U32,
            Tok::Return,
            Tok::If,
            Tok::While,
            ident("voidx"),
            ident("returned"),
            ident("_if"),
            ident("if2"),
            ident("W_1"),
        ]
    );
}

#[test]
fn lex_keyword_is_never_an_identifier() {
    for kw in ["void", "u32", "return", "if", "while"] {
        let ts = tokens(kw);
        assert_eq!(ts.len(), 1);
        assert!(!matches!(ts[0], Tok::Ident(_)));
    }
}

#[test]
fn lex_two_character_punctuation_first() {
    assert_eq!(
        tokens("== != << >> <= >= && ||"),
        vec![
            Tok::BinEq,
            Tok::BinNEq,
            Tok::LShift,
            Tok::RShift,
            Tok::LE,
            Tok::GE,
            Tok::And,
            Tok::Or,
        ]
    );
    assert_eq!(tokens("<<="), vec![Tok::LShift, Tok::Eq]);
    assert_eq!(tokens("&&&"), vec![Tok::And, Tok::AddrOf]);
    assert_eq!(tokens("==="), vec![Tok::BinEq, Tok::Eq]);
}

#[test]
fn lex_single_character_punctuation() {
    assert_eq!(
        tokens("(){};,*< > =+-&"),
        vec![
            Tok::LParen,
            Tok::RParen,
            Tok::LBrace,
            Tok::RBrace,
            Tok::Semi,
            Tok::Comma,
            Tok::Star,
            Tok::LT,
            Tok::GT,
            Tok::Eq,
            Tok::Plus,
            Tok::Minus,
            Tok::AddrOf,
        ]
    );
}

#[test]
fn lex_decimal_literals() {
    assert_eq!(tokens("0 7 42 1234567"), vec![
        Tok::IntLit(0),
        Tok::IntLit(7),
        Tok::IntLit(42),
        Tok::IntLit(1234567),
    ]);
    assert_eq!(tokens("9223372036854775807"), vec![Tok::IntLit(i64::MAX)]);
}

#[test]
fn lex_leading_zero_ends_a_literal() {
    assert_eq!(tokens("007"), vec![Tok::IntLit(0), Tok::IntLit(0), Tok::IntLit(7)]);
}

#[test]
fn lex_hex_literals() {
    assert_eq!(tokens("0x0 0XfF 0x10"), vec![Tok::IntLit(0), Tok::IntLit(255), Tok::IntLit(16)]);
    assert_eq!(tokens("0x7FFFFFFFFFFFFFFF"), vec![Tok::IntLit(i64::MAX)]);
    assert_eq!(tokens("0x00000000000000001"), vec![Tok::IntLit(1)]);
}

#[test]
fn lex_hex_prefix_without_digits() {
    assert_eq!(tokens("0x"), vec![Tok::IntLit(0), ident("x")]);
    assert_eq!(tokens("0xg"), vec![Tok::IntLit(0), ident("xg")]);
}

#[test]
fn lex_literal_then_identifier() {
    assert_eq!(tokens("12ab"), vec![Tok::IntLit(12), ident("ab")]);
}

#[test]
fn lex_overflowing_literals() {
    assert!(matches!(lex("9223372036854775808"), LexOutcome::Overflow));
    assert!(matches!(lex("0x8000000000000000"), LexOutcome::Overflow));
    assert!(matches!(lex("u32 x = 99999999999999999999;"), LexOutcome::Overflow));
}

#[test]
fn lex_empty_input() {
    assert_eq!(tokens(""), Vec::<Tok>::new());
}

#[test]
fn lex_whitespace_only_input_fails() {
    assert!(matches!(lex("   "), LexOutcome::Failed(0)));
    assert!(matches!(lex("\n"), LexOutcome::Failed(0)));
}

#[test]
fn lex_surrounding_whitespace() {
    assert_eq!(tokens("  \t u32 \n\r\n x  \n"), vec![Tok::U32, ident("x")]);
}

#[test]
fn lex_unicode_whitespace() {
    assert_eq!(tokens("u32\u{a0}x\u{2003}y\u{3000}"), vec![Tok::U32, ident("x"), ident("y")]);
}

#[test]
fn lex_unknown_character_fails() {
    assert!(matches!(lex("u32 x = !y;"), LexOutcome::Failed(_)));
    assert!(matches!(lex("a | b"), LexOutcome::Failed(_)));
    assert!(matches!(lex("\"s\""), LexOutcome::Failed(_)));
    assert!(matches!(lex("é"), LexOutcome::Failed(_)));
}
