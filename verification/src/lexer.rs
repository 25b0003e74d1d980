//! The lexer: from source text to tokens.
//!
//! Tokens may be surrounded by whitespace. A token is a word (a keyword or
//! an identifier), an integer literal (decimal, or hexadecimal after `0x`
//! or `0X`), or a punctuation sign. Whitespace alone, without any token,
//! is not a valid input; the empty input is.

use vstd::prelude::*;
use crate::text::{push_char, push_debug_str, debug_str};

verus! {

/// A token.
#[derive(Debug, Clone, PartialEq, Eq, Hash)]
pub enum Tok {
    Void,
    U32,
    Return,
    Ident(String),
    IntLit(i64),
    LParen,
    RParen,
    LBrace,
    RBrace,
    Semi,
    Eq,
    Plus,
    Minus,
    And,
    LShift,
    RShift,
    If,
    While,
    BinEq,
    BinNEq,
    Or,
    LE,
    GE,
    GT,
    LT,
    Comma,
    Star,
    AddrOf,
}

/// The view of a [`Tok`].
pub enum TokV {
    Void,
    U32,
    Return,
    Ident(Seq<char>),
    IntLit(i64),
    LParen,
    RParen,
    LBrace,
    RBrace,
    Semi,
    Eq,
    Plus,
    Minus,
    And,
    LShift,
    RShift,
    If,
    While,
    BinEq,
    BinNEq,
    Or,
    LE,
    GE,
    GT,
    LT,
    Comma,
    Star,
    AddrOf,
}

impl View for Tok {
    type V = TokV;

    open spec fn view(&self) -> TokV {
        match self {
            Tok::Void => TokV::Void,
            Tok::U32 => TokV::U32,
            Tok::Return => TokV::Return,
            Tok::Ident(s) => TokV::Ident(s@),
            Tok::IntLit(i) => TokV::IntLit(*i),
            Tok::LParen => TokV::LParen,
            Tok::RParen => TokV::RParen,
            Tok::LBrace => TokV::LBrace,
            Tok::RBrace => TokV::RBrace,
            Tok::Semi => TokV::Semi,
            Tok::Eq => TokV::Eq,
            Tok::Plus => TokV::Plus,
            Tok::Minus => TokV::Minus,
            Tok::And => TokV::And,
            Tok::LShift => TokV::LShift,
            Tok::RShift => TokV::RShift,
            Tok::If => TokV::If,
            Tok::While => TokV::While,
            Tok::BinEq => TokV::BinEq,
            Tok::BinNEq => TokV::BinNEq,
            Tok::Or => TokV::Or,
            Tok::LE => TokV::LE,
            Tok::GE => TokV::GE,
            Tok::GT => TokV::GT,
            Tok::LT => TokV::LT,
            Tok::Comma => TokV::Comma,
            Tok::Star => TokV::Star,
            Tok::AddrOf => TokV::AddrOf,
        }
    }
}

/// The views of a sequence of tokens.
pub open spec fn toks_view(ts: Seq<Tok>) -> Seq<TokV> {
    Seq::new(ts.len(), |i: int| ts[i]@)
}

/// Whitespace, as `char::is_whitespace` defines it (Unicode `White_Space`).
pub open spec fn is_ws(c: char) -> bool {
    ('\t' <= c && c <= '\r') || c == ' ' || c == '\u{85}' || c == '\u{a0}' || c == '\u{1680}' || (
    '\u{2000}' <= c && c <= '\u{200a}') || c == '\u{2028}' || c == '\u{2029}' || c == '\u{202f}'
        || c == '\u{205f}' || c == '\u{3000}'
}

/// An ASCII letter.
pub open spec fn is_alpha(c: char) -> bool {
    ('a' <= c && c <= 'z') || ('A' <= c && c <= 'Z')
}

/// An ASCII decimal digit.
pub open spec fn is_digit(c: char) -> bool {
    '0' <= c && c <= '9'
}

/// An ASCII hexadecimal digit.
pub open spec fn is_hex(c: char) -> bool {
    is_digit(c) || ('a' <= c && c <= 'f') || ('A' <= c && c <= 'F')
}

/// A character that may continue an identifier.
pub open spec fn is_word(c: char) -> bool {
    is_alpha(c) || is_digit(c) || c == '_'
}

/// The classes of characters that the lexer scans runs of.
pub enum CharClass {
    Space,
    Word,
    Digit,
    Hex,
}

/// Whether `c` belongs to class `cls`.
pub open spec fn in_class(c: char, cls: CharClass) -> bool {
    match cls {
        CharClass::Space => is_ws(c),
        CharClass::Word => is_word(c),
        CharClass::Digit => is_digit(c),
        CharClass::Hex => is_hex(c),
    }
}

/// The number of characters of class `cls` that follow in `s` from `k`.
pub open spec fn run(s: Seq<char>, k: int, cls: CharClass) -> nat
    decreases s.len() - k,
{
    if 0 <= k < s.len() && in_class(s[k], cls) {
        1 + run(s, k + 1, cls)
    } else {
        0
    }
}

/// The value of a digit of base 16 or less.
pub open spec fn digit_value(c: char) -> nat {
    if is_digit(c) {
        (c as int - '0' as int) as nat
    } else if 'a' <= c && c <= 'f' {
        (c as int - 'a' as int + 10) as nat
    } else {
        (c as int - 'A' as int + 10) as nat
    }
}

/// The value of decimal digits.
pub open spec fn dec_value(ds: Seq<char>) -> nat
    decreases ds.len(),
{
    if ds.len() == 0 {
        0
    } else {
        dec_value(ds.drop_last()) * 10 + digit_value(ds.last())
    }
}

/// The value of hexadecimal digits.
pub open spec fn hex_value(ds: Seq<char>) -> nat
    decreases ds.len(),
{
    if ds.len() == 0 {
        0
    } else {
        hex_value(ds.drop_last()) * 16 + digit_value(ds.last())
    }
}

/// The token of a word: a keyword, or else an identifier.
pub open spec fn word_token(w: Seq<char>) -> TokV {
    if w == "void"@ {
        TokV::Void
    } else if w == "return"@ {
        TokV::Return
    } else if w == "u32"@ {
        TokV::U32
    } else if w == "if"@ {
        TokV::If
    } else if w == "while"@ {
        TokV::While
    } else {
        TokV::Ident(w)
    }
}

/// What the lexer finds at one position.
pub enum Lexed {
    /// A token, and the position just after it.
    Token(TokV, int),
    /// An integer literal whose value does not fit in an `i64`.
    Overflow,
    /// No token starts here.
    NoToken,
}

/// An integer literal of value `v` that ends at `e`.
pub open spec fn int_token(v: nat, e: int) -> Lexed {
    if v <= i64::MAX {
        Lexed::Token(TokV::IntLit(v as i64), e)
    } else {
        Lexed::Overflow
    }
}

/// The punctuation sign at `p`: two-character signs come first.
pub open spec fn punct_token(s: Seq<char>, p: int) -> Lexed {
    let c = s[p];
    let two = p + 1 < s.len();
    let d = if two { s[p + 1] } else { ' ' };
    if two && c == '=' && d == '=' {
        Lexed::Token(TokV::BinEq, p + 2)
    } else if two && c == '!' && d == '=' {
        Lexed::Token(TokV::BinNEq, p + 2)
    } else if two && c == '<' && d == '<' {
        Lexed::Token(TokV::LShift, p + 2)
    } else if two && c == '>' && d == '>' {
        Lexed::Token(TokV::RShift, p + 2)
    } else if two && c == '<' && d == '=' {
        Lexed::Token(TokV::LE, p + 2)
    } else if two && c == '>' && d == '=' {
        Lexed::Token(TokV::GE, p + 2)
    } else if two && c == '&' && d == '&' {
        Lexed::Token(TokV::And, p + 2)
    } else if two && c == '|' && d == '|' {
        Lexed::Token(TokV::Or, p + 2)
    } else if c == '(' {
        Lexed::Token(TokV::LParen, p + 1)
    } else if c == ')' {
        Lexed::Token(TokV::RParen, p + 1)
    } else if c == '{' {
        Lexed::Token(TokV::LBrace, p + 1)
    } else if c == '}' {
        Lexed::Token(TokV::RBrace, p + 1)
    } else if c == ';' {
        Lexed::Token(TokV::Semi, p + 1)
    } else if c == ',' {
        Lexed::Token(TokV::Comma, p + 1)
    } else if c == '*' {
        Lexed::Token(TokV::Star, p + 1)
    } else if c == '<' {
        Lexed::Token(TokV::LT, p + 1)
    } else if c == '>' {
        Lexed::Token(TokV::GT, p + 1)
    } else if c == '=' {
        Lexed::Token(TokV::Eq, p + 1)
    } else if c == '+' {
        Lexed::Token(TokV::Plus, p + 1)
    } else if c == '-' {
        Lexed::Token(TokV::Minus, p + 1)
    } else if c == '&' {
        Lexed::Token(TokV::AddrOf, p + 1)
    } else {
        Lexed::NoToken
    }
}

/// The token that starts at `p` (with `p < s.len()`), tried in order: a
/// word, an integer (hexadecimal before decimal), a punctuation sign. A
/// decimal integer is `0` alone or digits that do not start with `0`.
pub open spec fn lex_token(s: Seq<char>, p: int) -> Lexed {
    let c = s[p];
    if is_alpha(c) || c == '_' {
        let e = p + 1 + run(s, p + 1, CharClass::Word);
        Lexed::Token(word_token(s.subrange(p, e)), e)
    } else if is_digit(c) {
        let hex = c == '0' && p + 1 < s.len() && (s[p + 1] == 'x' || s[p + 1] == 'X') && run(
            s,
            p + 2,
            CharClass::Hex,
        ) > 0;
        if hex {
            let e = p + 2 + run(s, p + 2, CharClass::Hex);
            int_token(hex_value(s.subrange(p + 2, e)), e)
        } else if c == '0' {
            Lexed::Token(TokV::IntLit(0), p + 1)
        } else {
            let e = p + 1 + run(s, p + 1, CharClass::Digit);
            int_token(dec_value(s.subrange(p, e)), e)
        }
    } else {
        punct_token(s, p)
    }
}

/// The outcome of lexing.
pub enum LexSpec {
    /// The tokens of the whole input.
    Tokens(Seq<TokV>),
    /// No token starts at this position, which is not the end.
    Failed(int),
    /// An integer literal is too large for an `i64`.
    Overflow,
}

/// A run stays inside the text, and all its characters are of its class.
pub proof fn lemma_run_bound(s: Seq<char>, k: int, cls: CharClass)
    requires
        0 <= k <= s.len(),
    ensures
        k + run(s, k, cls) <= s.len(),
        forall|i: int| k <= i < k + run(s, k, cls) ==> in_class(#[trigger] s[i], cls),
    decreases s.len() - k,
{
    if k < s.len() && in_class(s[k], cls) {
        lemma_run_bound(s, k + 1, cls);
    }
}

/// A token ends after its start and inside the text.
pub proof fn lemma_token_end(s: Seq<char>, p: int)
    requires
        0 <= p < s.len(),
    ensures
        lex_token(s, p) matches Lexed::Token(_, e) ==> p < e <= s.len(),
{
    lemma_run_bound(s, p + 1, CharClass::Word);
    lemma_run_bound(s, p + 1, CharClass::Digit);
    if p + 2 <= s.len() {
        lemma_run_bound(s, p + 2, CharClass::Hex);
    }
}

/// Lexes `s` from `pos`: each token with the whitespace before and after
/// it, until no token follows; that must be the end of the input.
pub open spec fn lex_from(s: Seq<char>, pos: int) -> LexSpec
    decreases s.len() - pos,
{
    if pos < 0 || pos > s.len() {
        LexSpec::Failed(pos)
    } else {
        let p1 = pos + run(s, pos, CharClass::Space);
        proof {
            lemma_run_bound(s, pos, CharClass::Space);
        }
        let found = if p1 < s.len() {
            lex_token(s, p1)
        } else {
            Lexed::NoToken
        };
        match found {
            Lexed::Token(t, e) => {
                proof {
                    lemma_token_end(s, p1);
                    lemma_run_bound(s, e, CharClass::Space);
                }
                let q = e + run(s, e, CharClass::Space);
                match lex_from(s, q) {
                    LexSpec::Tokens(ts) => LexSpec::Tokens(seq![t] + ts),
                    other => other,
                }
            },
            Lexed::Overflow => LexSpec::Overflow,
            Lexed::NoToken => if pos == s.len() {
                LexSpec::Tokens(Seq::empty())
            } else {
                LexSpec::Failed(pos)
            },
        }
    }
}

/// The outcome of lexing the whole of `s`.
pub open spec fn lex_spec(s: Seq<char>) -> LexSpec {
    lex_from(s, 0)
}

/// The keywords of the language.
pub open spec fn is_keyword(w: Seq<char>) -> bool {
    w == "void"@ || w == "return"@ || w == "u32"@ || w == "if"@ || w == "while"@
}

/// A name as identifiers spell it: a letter or `_`, then letters, digits
/// and `_`.
pub open spec fn is_name(w: Seq<char>) -> bool {
    &&& w.len() > 0
    &&& is_alpha(w[0]) || w[0] == '_'
    &&& forall|i: int| 0 <= i < w.len() ==> is_word(#[trigger] w[i])
}

/// The identifier tokens of `ts` are names and never keywords.
pub open spec fn idents_ok(ts: Seq<TokV>) -> bool {
    forall|i: int| 0 <= i < ts.len() ==> (#[trigger] ts[i] matches TokV::Ident(w) ==> is_name(w) && !is_keyword(w))
}

/// An identifier token is a name that is not a keyword.
proof fn lemma_token_ident(s: Seq<char>, p: int)
    requires
        0 <= p < s.len(),
    ensures
        lex_token(s, p) matches Lexed::Token(TokV::Ident(w), _) ==> is_name(w) && !is_keyword(w),
{
    let c = s[p];
    if is_alpha(c) || c == '_' {
        lemma_run_bound(s, p + 1, CharClass::Word);
        let e = p + 1 + run(s, p + 1, CharClass::Word);
        let w = s.subrange(p, e);
        assert forall|i: int| 0 <= i < w.len() implies is_word(#[trigger] w[i]) by {
            assert(w[i] == s[p + i]);
            if i > 0 {
                assert(in_class(s[p + i], CharClass::Word));
            }
        }
    }
}

/// Every identifier lexed from `pos` on is a name that is not a keyword.
proof fn lemma_lex_from_idents(s: Seq<char>, pos: int)
    ensures
        lex_from(s, pos) matches LexSpec::Tokens(ts) ==> idents_ok(ts),
    decreases s.len() - pos,
{
    if 0 <= pos <= s.len() {
        lemma_run_bound(s, pos, CharClass::Space);
        let p1 = pos + run(s, pos, CharClass::Space);
        if p1 < s.len() {
            lemma_token_ident(s, p1);
            match lex_token(s, p1) {
                Lexed::Token(t, e) => {
                    lemma_token_end(s, p1);
                    lemma_run_bound(s, e, CharClass::Space);
                    let q = e + run(s, e, CharClass::Space);
                    lemma_lex_from_idents(s, q);
                    match lex_from(s, q) {
                        LexSpec::Tokens(ts) => {
                            let all = seq![t] + ts;
                            assert forall|i: int| 0 <= i < all.len() implies (#[trigger] all[i] matches TokV::Ident(w) ==> is_name(w) && !is_keyword(w)) by {
                                if i > 0 {
                                    assert(all[i] == ts[i - 1]);
                                }
                            }
                        },
                        _ => {},
                    }
                },
                _ => {},
            }
        }
    }
}

/// Law: every identifier that the lexer produces is a name (a letter or
/// `_`, then letters, digits and `_`) and never a keyword: `void`,
/// `return`, `u32`, `if` and `while` always come out as their own tokens.
pub proof fn lemma_lex_identifiers(s: Seq<char>)
    ensures
        lex_spec(s) matches LexSpec::Tokens(ts) ==> idents_ok(ts),
{
    lemma_lex_from_idents(s, 0);
}

/// Every character of `w` is whitespace.
pub open spec fn all_ws(w: Seq<char>) -> bool {
    forall|i: int| 0 <= i < w.len() ==> is_ws(#[trigger] w[i])
}

/// A run in a text is the run in its prefix `u` when the run ends inside
/// `u`, or when the character after `u` is not of the class.
proof fn lemma_run_prefix(s: Seq<char>, u: Seq<char>, k: int, cls: CharClass)
    requires
        u.len() <= s.len(),
        u == s.take(u.len() as int),
        0 <= k <= u.len(),
        k + run(u, k, cls) < u.len() || (u.len() < s.len() && !in_class(s[u.len() as int], cls)),
    ensures
        run(s, k, cls) == run(u, k, cls),
    decreases u.len() - k,
{
    if k < u.len() {
        assert(u[k] == s[k]);
        if in_class(u[k], cls) {
            lemma_run_prefix(s, u, k + 1, cls);
        }
    }
}

/// A run in the part `v` of `pre + v` is the run in `v`.
proof fn lemma_run_shift(pre: Seq<char>, v: Seq<char>, k: int, cls: CharClass)
    requires
        0 <= k <= v.len(),
    ensures
        run(pre + v, pre.len() + k, cls) == run(v, k, cls),
    decreases v.len() - k,
{
    let s = pre + v;
    if k < v.len() {
        assert(s[pre.len() + k] == v[k]);
        if in_class(v[k], cls) {
            lemma_run_shift(pre, v, k + 1, cls);
            assert(pre.len() + k + 1 == pre.len() + (k + 1));
        }
    }
}

/// A run of whitespace from `a` takes in all of `s[a..b]` when that is
/// whitespace.
proof fn lemma_run_ws_skip(s: Seq<char>, a: int, b: int)
    requires
        0 <= a <= b <= s.len(),
        forall|i: int| a <= i < b ==> is_ws(#[trigger] s[i]),
    ensures
        run(s, a, CharClass::Space) == (b - a) + run(s, b, CharClass::Space),
    decreases b - a,
{
    if a < b {
        lemma_run_ws_skip(s, a + 1, b);
    }
}

/// Whitespace is of no other class.
proof fn lemma_ws_not_word(c: char)
    requires
        is_ws(c),
    ensures
        !is_word(c),
        !is_digit(c),
        !is_hex(c),
        !is_alpha(c),
        c != '_',
        c != 'x' && c != 'X' && c != '=' && c != '<' && c != '>' && c != '&' && c != '|',
{
}

/// A token that starts inside a prefix `u` of the text, followed in the
/// text by whitespace, is the token that starts there in `u`.
proof fn lemma_token_prefix(s: Seq<char>, u: Seq<char>, p: int)
    requires
        u.len() < s.len(),
        u == s.take(u.len() as int),
        is_ws(s[u.len() as int]),
        0 <= p < u.len(),
    ensures
        lex_token(s, p) == lex_token(u, p),
{
    let n = u.len() as int;
    lemma_ws_not_word(s[n]);
    assert(u[p] == s[p]);
    if p + 1 < n {
        assert(u[p + 1] == s[p + 1]);
    }
    lemma_run_prefix(s, u, p + 1, CharClass::Word);
    lemma_run_prefix(s, u, p + 1, CharClass::Digit);
    lemma_run_bound(u, p + 1, CharClass::Word);
    lemma_run_bound(u, p + 1, CharClass::Digit);
    let ew = p + 1 + run(u, p + 1, CharClass::Word);
    assert(u.subrange(p, ew) =~= s.subrange(p, ew));
    let ed = p + 1 + run(u, p + 1, CharClass::Digit);
    assert(u.subrange(p, ed) =~= s.subrange(p, ed));
    if p + 2 <= n {
        lemma_run_prefix(s, u, p + 2, CharClass::Hex);
        lemma_run_bound(u, p + 2, CharClass::Hex);
        let eh = p + 2 + run(u, p + 2, CharClass::Hex);
        assert(u.subrange(p + 2, eh) =~= s.subrange(p + 2, eh));
    }
}

/// A token that starts in the part `v` of `pre + v` is the token that
/// starts there in `v`, with its end moved by `pre.len()`.
proof fn lemma_token_shift(pre: Seq<char>, v: Seq<char>, p: int)
    requires
        0 <= p < v.len(),
    ensures
        match lex_token(v, p) {
            Lexed::Token(t, e) => lex_token(pre + v, pre.len() + p) == Lexed::Token(t, pre.len() + e),
            other => lex_token(pre + v, pre.len() + p) == other,
        },
{
    let s = pre + v;
    let o = pre.len() as int;
    assert(s[o + p] == v[p]);
    if p + 1 < v.len() {
        assert(s[o + p + 1] == v[p + 1]);
    }
    lemma_run_shift(pre, v, p + 1, CharClass::Word);
    lemma_run_shift(pre, v, p + 1, CharClass::Digit);
    lemma_run_bound(v, p + 1, CharClass::Word);
    lemma_run_bound(v, p + 1, CharClass::Digit);
    assert(o + (p + 1) == o + p + 1);
    let ew = p + 1 + run(v, p + 1, CharClass::Word);
    assert(v.subrange(p, ew) =~= s.subrange(o + p, o + ew));
    let ed = p + 1 + run(v, p + 1, CharClass::Digit);
    assert(v.subrange(p, ed) =~= s.subrange(o + p, o + ed));
    if p + 2 <= v.len() {
        lemma_run_shift(pre, v, p + 2, CharClass::Hex);
        lemma_run_bound(v, p + 2, CharClass::Hex);
        assert(o + (p + 2) == o + p + 2);
        let eh = p + 2 + run(v, p + 2, CharClass::Hex);
        assert(v.subrange(p + 2, eh) =~= s.subrange(o + p + 2, o + eh));
    }
}

/// Lexing the part `v` of `pre + v` gives the tokens of `v`.
proof fn lemma_lex_shift(pre: Seq<char>, v: Seq<char>, q: int)
    requires
        0 <= q <= v.len(),
    ensures
        lex_from(v, q) matches LexSpec::Tokens(ts) ==> lex_from(pre + v, pre.len() + q)
            == LexSpec::Tokens(ts),
    decreases v.len() - q,
{
    let s = pre + v;
    let o = pre.len() as int;
    lemma_run_shift(pre, v, q, CharClass::Space);
    lemma_run_bound(v, q, CharClass::Space);
    let p1 = q + run(v, q, CharClass::Space);
    assert(o + q + run(s, o + q, CharClass::Space) == o + p1);
    if p1 < v.len() {
        lemma_token_shift(pre, v, p1);
        match lex_token(v, p1) {
            Lexed::Token(t, e) => {
                lemma_token_end(v, p1);
                lemma_run_shift(pre, v, e, CharClass::Space);
                lemma_run_bound(v, e, CharClass::Space);
                let qv = e + run(v, e, CharClass::Space);
                lemma_lex_shift(pre, v, qv);
                assert(o + e + run(s, o + e, CharClass::Space) == o + qv);
            },
            _ => {},
        }
    }
}

/// A run ends where the next character is not of its class.
proof fn lemma_run_end(s: Seq<char>, k: int, cls: CharClass)
    requires
        0 <= k <= s.len(),
    ensures
        run(s, k + run(s, k, cls), cls) == 0,
    decreases s.len() - k,
{
    if k < s.len() && in_class(s[k], cls) {
        lemma_run_end(s, k + 1, cls);
    }
}

/// Lexing from the first non-whitespace character of `v` is lexing `v`.
proof fn lemma_lex_skip_start(v: Seq<char>)
    requires
        lex_from(v, 0) is Tokens,
    ensures
        lex_from(v, run(v, 0, CharClass::Space) as int) == lex_from(v, 0),
{
    lemma_run_bound(v, 0, CharClass::Space);
    lemma_run_end(v, 0, CharClass::Space);
}

/// Lexing `u + w + v` from a position of `u` where `u` still has tokens,
/// with `w` whitespace: the tokens of `u` from there, then those of `v`.
#[verifier::rlimit(40)]
proof fn lemma_lex_concat_from(u: Seq<char>, w: Seq<char>, v: Seq<char>, pos: int)
    requires
        all_ws(w),
        w.len() > 0,
        0 <= pos <= u.len(),
        lex_from(u, pos) matches LexSpec::Tokens(x) && x.len() > 0,
        lex_from(v, 0) is Tokens,
    ensures
        lex_from(u + w + v, pos) == LexSpec::Tokens(
            lex_from(u, pos)->Tokens_0 + lex_from(v, 0)->Tokens_0,
        ),
    decreases u.len() - pos,
{
    let s = u + w + v;
    let n = u.len() as int;
    let m = w.len() as int;
    let x = lex_from(u, pos)->Tokens_0;
    let y = lex_from(v, 0)->Tokens_0;
    assert(u =~= s.take(n));
    assert(s[n] == w[0]);
    lemma_run_bound(u, pos, CharClass::Space);
    let p1 = pos + run(u, pos, CharClass::Space);
    assert(p1 < n);
    lemma_run_prefix(s, u, pos, CharClass::Space);
    lemma_token_prefix(s, u, p1);
    lemma_token_end(u, p1);
    match lex_token(u, p1) {
        Lexed::Token(t, e) => {
            lemma_run_bound(u, e, CharClass::Space);
            let qu = e + run(u, e, CharClass::Space);
            let x2 = lex_from(u, qu)->Tokens_0;
            assert(x == seq![t] + x2);
            if x2.len() > 0 {
                lemma_run_end(u, e, CharClass::Space);
                assert(qu < n);
                lemma_run_prefix(s, u, e, CharClass::Space);
                lemma_lex_concat_from(u, w, v, qu);
                assert(seq![t] + (x2 + y) =~= x + y);
            } else {
                assert(qu == n);
                assert forall|i: int| e <= i < n + m implies is_ws(#[trigger] s[i]) by {
                    if i < n {
                        assert(s[i] == u[i]);
                        assert(in_class(u[i], CharClass::Space));
                    } else {
                        assert(s[i] == w[i - n]);
                    }
                }
                lemma_run_ws_skip(s, e, n + m);
                assert(s =~= (u + w) + v);
                lemma_run_shift(u + w, v, 0, CharClass::Space);
                let pv = run(v, 0, CharClass::Space) as int;
                lemma_run_bound(v, 0, CharClass::Space);
                lemma_lex_skip_start(v);
                lemma_lex_shift(u + w, v, pv);
                assert(e + run(s, e, CharClass::Space) == (n + m) + pv);
                assert(seq![t] + y =~= x + y);
            }
        },
        _ => {},
    }
}

/// Law: whitespace between the tokens of two texts joins their tokens.
/// When `u` and `v` each lex to tokens, at least one of them has a token,
/// and `w` is a non-empty run of whitespace, `u + w + v` lexes to the
/// tokens of `u` followed by those of `v`.
pub proof fn lemma_lex_whitespace_join(u: Seq<char>, w: Seq<char>, v: Seq<char>)
    requires
        all_ws(w),
        w.len() > 0,
        lex_spec(u) is Tokens,
        lex_spec(v) is Tokens,
        lex_spec(u)->Tokens_0.len() + lex_spec(v)->Tokens_0.len() > 0,
    ensures
        lex_spec(u + w + v) == LexSpec::Tokens(lex_spec(u)->Tokens_0 + lex_spec(v)->Tokens_0),
{
    let tu = lex_spec(u)->Tokens_0;
    let tv = lex_spec(v)->Tokens_0;
    if tu.len() > 0 {
        lemma_lex_concat_from(u, w, v, 0);
    } else {
        lemma_run_bound(u, 0, CharClass::Space);
        assert(u.len() == 0);
        let s = u + w + v;
        let m = w.len() as int;
        assert(s =~= (u + w) + v);
        assert(tu + tv =~= tv);
        assert forall|i: int| 0 <= i < m implies is_ws(#[trigger] s[i]) by {
            assert(s[i] == w[i]);
        }
        lemma_run_ws_skip(s, 0, m);
        lemma_run_shift(u + w, v, 0, CharClass::Space);
        let pv = run(v, 0, CharClass::Space) as int;
        lemma_run_bound(v, 0, CharClass::Space);
        lemma_run_end(v, 0, CharClass::Space);
        lemma_run_shift(u + w, v, pv, CharClass::Space);
        lemma_lex_skip_start(v);
        lemma_lex_shift(u + w, v, pv);
        assert(pv < v.len());
        lemma_token_shift(u + w, v, pv);
    }
}

/// Only the empty text lexes to no tokens; a non-empty run of whitespace
/// alone fails at its start.
pub proof fn lemma_lex_empty(u: Seq<char>)
    ensures
        lex_spec(u) == LexSpec::Tokens(Seq::<TokV>::empty()) ==> u.len() == 0,
        all_ws(u) && u.len() > 0 ==> lex_spec(u) == LexSpec::Failed(0) && lex_error_text(u, 0)
            == "lex error(s):\n"@ + error_line(None, token_starts()),
{
    lemma_run_bound(u, 0, CharClass::Space);
    if all_ws(u) {
        lemma_run_ws_skip(u, 0, u.len() as int);
    }
}

/// An item that the lexer expected where no token starts: a character,
/// or the end of the input.
pub enum Expect {
    Char(char),
    End,
}

/// An item in `Debug` notation: the character as a one-character string
/// between quotes, or `end of input`.
pub open spec fn expect_text(x: Expect) -> Seq<char> {
    match x {
        Expect::Char(c) => debug_str(seq![c]),
        Expect::End => "end of input"@,
    }
}

/// The items joined by `", "`.
pub open spec fn join_expect(xs: Seq<Expect>) -> Seq<char>
    decreases xs.len(),
{
    if xs.len() == 0 {
        Seq::empty()
    } else if xs.len() == 1 {
        expect_text(xs[0])
    } else {
        join_expect(xs.drop_last()) + ", "@ + expect_text(xs.last())
    }
}

/// What was found, in `Debug` notation: a character as a one-character
/// string between quotes, or `end of input`.
pub open spec fn found_text(found: Option<char>) -> Seq<char> {
    match found {
        Some(c) => debug_str(seq![c]),
        None => "end of input"@,
    }
}

/// What would have been accepted: one item, or a list of them.
pub open spec fn expected_text(items: Seq<Expect>) -> Seq<char> {
    if items.len() == 0 {
        Seq::empty()
    } else if items.len() == 1 {
        " but expected "@ + expect_text(items[0])
    } else {
        " but expected one of "@ + join_expect(items)
    }
}

/// The line of a lexing error: what was found instead (a character, or
/// the end of the input), and what would have been accepted there.
pub open spec fn error_line(found: Option<char>, items: Seq<Expect>) -> Seq<char> {
    "  found "@ + found_text(found) + expected_text(items) + "\n"@
}

/// The first characters of the signs and numbers: what can start a token
/// other than a word.
pub open spec fn token_starts() -> Seq<Expect> {
    seq![
        Expect::Char('0'),
        Expect::Char('='),
        Expect::Char('!'),
        Expect::Char('<'),
        Expect::Char('>'),
        Expect::Char('&'),
        Expect::Char('|'),
        Expect::Char('('),
        Expect::Char(')'),
        Expect::Char('{'),
        Expect::Char('}'),
        Expect::Char(';'),
        Expect::Char(','),
        Expect::Char('*'),
        Expect::Char('+'),
        Expect::Char('-'),
    ]
}

/// Where lexing fails at `q` (the place after the last token and the
/// whitespace that follows it), the place of the error: the first
/// non-whitespace character, or the character after a lone `!` or `|`,
/// which need a second character.
pub open spec fn error_at(s: Seq<char>, q: int) -> int {
    let p1 = q + run(s, q, CharClass::Space);
    if p1 < s.len() && (s[p1] == '!' || s[p1] == '|') {
        p1 + 1
    } else {
        p1
    }
}

/// What lexing that fails at `q` found at the place of the error.
pub open spec fn lex_found(s: Seq<char>, q: int) -> Option<char> {
    let at = error_at(s, q);
    if 0 <= at < s.len() {
        Some(s[at])
    } else {
        None
    }
}

/// What lexing that fails at `q` would have accepted at the place of the
/// error: the `=` of `!=` or the `|` of `||` after a lone `!` or `|`;
/// otherwise a character that starts a sign or a number, and the end of
/// the input when no whitespace comes before the error.
pub open spec fn lex_expected(s: Seq<char>, q: int) -> Seq<Expect> {
    let p1 = q + run(s, q, CharClass::Space);
    if p1 < s.len() && s[p1] == '!' {
        seq![Expect::Char('=')]
    } else if p1 < s.len() && s[p1] == '|' {
        seq![Expect::Char('|')]
    } else {
        if p1 == q {
            token_starts().push(Expect::End)
        } else {
            token_starts()
        }
    }
}

/// The message of a lexing error at `q`.
pub open spec fn lex_error_text(s: Seq<char>, q: int) -> Seq<char> {
    "lex error(s):\n"@ + error_line(lex_found(s, q), lex_expected(s, q))
}

/// Lexing fails only at a place inside the text.
proof fn lemma_failed_range(s: Seq<char>, pos: int)
    requires
        0 <= pos <= s.len(),
    ensures
        lex_from(s, pos) matches LexSpec::Failed(q) ==> pos <= q < s.len(),
    decreases s.len() - pos,
{
    lemma_run_bound(s, pos, CharClass::Space);
    let p1 = pos + run(s, pos, CharClass::Space);
    if p1 < s.len() {
        match lex_token(s, p1) {
            Lexed::Token(t, e) => {
                lemma_token_end(s, p1);
                lemma_run_bound(s, e, CharClass::Space);
                lemma_failed_range(s, e + run(s, e, CharClass::Space));
            },
            _ => {},
        }
    }
}

/// Appends an item in `Debug` notation.
fn push_expect(out: &mut String, x: &Expect)
    ensures
        final(out)@ == old(out)@ + expect_text(*x),
{
    match x {
        Expect::Char(c) => {
            let mut one = String::new();
            push_char(&mut one, *c);
            assert(one@ =~= seq![*c]);
            push_debug_str(out, &one);
        },
        Expect::End => {
            out.append("end of input");
        },
    }
}

/// The items that start a sign or a number.
fn token_start_items() -> (v: Vec<Expect>)
    ensures
        v@ == token_starts(),
{
    let v = vec![
        Expect::Char('0'),
        Expect::Char('='),
        Expect::Char('!'),
        Expect::Char('<'),
        Expect::Char('>'),
        Expect::Char('&'),
        Expect::Char('|'),
        Expect::Char('('),
        Expect::Char(')'),
        Expect::Char('{'),
        Expect::Char('}'),
        Expect::Char(';'),
        Expect::Char(','),
        Expect::Char('*'),
        Expect::Char('+'),
        Expect::Char('-'),
    ];
    assert(v@ =~= token_starts());
    v
}

/// Appends what was found.
fn push_found(out: &mut String, found: Option<char>)
    ensures
        final(out)@ == old(out)@ + found_text(found),
{
    match found {
        Some(c) => {
            let mut one = String::new();
            push_char(&mut one, c);
            assert(one@ =~= seq![c]);
            push_debug_str(out, &one);
        },
        None => {
            out.append("end of input");
        },
    }
}

/// Appends what would have been accepted.
fn push_expected(out: &mut String, items: &Vec<Expect>)
    ensures
        final(out)@ == old(out)@ + expected_text(items@),
{
    let k = items.len();
    if k == 0 {
        assert(old(out)@ + expected_text(items@) =~= old(out)@);
    } else if k == 1 {
        out.append(" but expected ");
        push_expect(out, &items[0]);
    } else {
        out.append(" but expected one of ");
        let ghost mid = out@;
        let mut i: usize = 0;
        while i < k
            invariant
                k == items@.len(),
                0 <= i <= k,
                out@ == mid + join_expect(items@.take(i as int)),
            decreases k - i,
        {
            if i > 0 {
                out.append(", ");
            }
            push_expect(out, &items[i]);
            proof {
                let t = items@.take(i + 1);
                assert(t.drop_last() =~= items@.take(i as int));
                assert(t.last() == items@[i as int]);
                if i == 0 {
                    assert(items@.take(0) =~= Seq::<Expect>::empty());
                }
                assert(out@ =~= mid + join_expect(t));
            }
            i = i + 1;
        }
        assert(items@.take(k as int) =~= items@);
    }
}

/// The message of lexing `input` when it fails at `q`: the stage, then
/// one line with what was found at the place of the error and what would
/// have been accepted there (see [`lex_error_text`]).
pub fn lex_error_message(input: &str, q: usize) -> (m: String)
    requires
        lex_spec(input@) == LexSpec::Failed(q as int),
    ensures
        m@ == lex_error_text(input@, q as int),
{
    let cs = chars_of(input);
    let n = cs.len();
    proof {
        lemma_failed_range(cs@, 0);
    }
    let p1 = q + run_exec(&cs, q, CharClass::Space);
    let at = if p1 < n && (cs[p1] == '!' || cs[p1] == '|') {
        p1 + 1
    } else {
        p1
    };
    let found = if at < n {
        Some(cs[at])
    } else {
        None
    };
    let items: Vec<Expect> = if p1 < n && cs[p1] == '!' {
        vec![Expect::Char('=')]
    } else if p1 < n && cs[p1] == '|' {
        vec![Expect::Char('|')]
    } else {
        let mut v = token_start_items();
        if p1 == q {
            v.push(Expect::End);
        }
        v
    };
    assert(items@ =~= lex_expected(input@, q as int));
    assert(found == lex_found(input@, q as int));
    let mut m = String::new();
    m.append("lex error(s):\n");
    m.append("  found ");
    push_found(&mut m, found);
    push_expected(&mut m, &items);
    m.append("\n");
    assert(m@ =~= lex_error_text(input@, q as int));
    m
}

/// Law: the hexadecimal digits have their values: the `i`-th character of
/// `0123456789abcdef`, and of `0123456789ABCDEF`, is a hexadecimal digit
/// worth `i`.
pub proof fn lemma_hex_digit_values(i: int)
    requires
        0 <= i < 16,
    ensures
        is_hex("0123456789abcdef"@[i]),
        digit_value("0123456789abcdef"@[i]) == i,
        is_hex("0123456789ABCDEF"@[i]),
        digit_value("0123456789ABCDEF"@[i]) == i,
{
    reveal_strlit("0123456789abcdef");
    reveal_strlit("0123456789ABCDEF");
    let lo = "0123456789abcdef"@;
    let up = "0123456789ABCDEF"@;
    if i < 10 {
        assert(lo[i] as int == '0' as int + i);
        assert(up[i] as int == '0' as int + i);
    } else {
        assert(lo[i] as int == 'a' as int + (i - 10));
        assert(up[i] as int == 'A' as int + (i - 10));
    }
}

/// A run that reaches the end of the text.
proof fn lemma_run_to_end(s: Seq<char>, k: int, cls: CharClass)
    requires
        0 <= k <= s.len(),
        forall|i: int| k <= i < s.len() ==> in_class(#[trigger] s[i], cls),
    ensures
        run(s, k, cls) == s.len() - k,
    decreases s.len() - k,
{
    if k < s.len() {
        lemma_run_to_end(s, k + 1, cls);
    }
}

/// Law: `0x` followed by hexadecimal digits lexes to one integer literal
/// whose value is that of the digits in base 16 (each digit's value
/// times the power of 16 of its place), when it fits in an `i64`.
pub proof fn lemma_lex_hex_literal(ds: Seq<char>)
    requires
        ds.len() > 0,
        forall|i: int| 0 <= i < ds.len() ==> is_hex(#[trigger] ds[i]),
        hex_value(ds) <= i64::MAX,
    ensures
        lex_spec("0x"@ + ds) == LexSpec::Tokens(seq![TokV::IntLit(hex_value(ds) as i64)]),
        ds.len() > 1 ==> hex_value(ds) == 16 * hex_value(ds.drop_last()) + digit_value(ds.last()),
{
    reveal_strlit("0x");
    let s = "0x"@ + ds;
    assert(s[0] == '0' && s[1] == 'x');
    assert forall|i: int| 2 <= i < s.len() implies in_class(#[trigger] s[i], CharClass::Hex) by {
        assert(s[i] == ds[i - 2]);
    }
    lemma_run_to_end(s, 2, CharClass::Hex);
    assert(s.subrange(2, s.len() as int) =~= ds);
    assert(run(s, 0, CharClass::Space) == 0);
    assert(run(s, s.len() as int, CharClass::Space) == 0);
    assert(lex_from(s, s.len() as int) == LexSpec::Tokens(Seq::<TokV>::empty()));
    assert(seq![TokV::IntLit(hex_value(ds) as i64)] + Seq::<TokV>::empty() =~= seq![
        TokV::IntLit(hex_value(ds) as i64),
    ]);
}

/// Law: a decimal literal that does not start with `0` lexes to one
/// integer literal whose value is that of its digits in base 10, each
/// digit `0123456789`[i] being worth `i`, when it fits in an `i64`.
pub proof fn lemma_lex_dec_literal(ds: Seq<char>, i: int)
    requires
        ds.len() > 0,
        forall|k: int| 0 <= k < ds.len() ==> is_digit(#[trigger] ds[k]),
        ds[0] != '0',
        dec_value(ds) <= i64::MAX,
        0 <= i < 10,
    ensures
        lex_spec(ds) == LexSpec::Tokens(seq![TokV::IntLit(dec_value(ds) as i64)]),
        digit_value("0123456789"@[i]) == i,
        ds.len() > 1 ==> dec_value(ds) == 10 * dec_value(ds.drop_last()) + digit_value(ds.last()),
{
    reveal_strlit("0123456789");
    assert("0123456789"@[i] as int == '0' as int + i);
    lemma_run_to_end(ds, 1, CharClass::Digit);
    assert(ds.subrange(0, ds.len() as int) =~= ds);
    assert(run(ds, 0, CharClass::Space) == 0);
    assert(run(ds, ds.len() as int, CharClass::Space) == 0);
    assert(lex_from(ds, ds.len() as int) == LexSpec::Tokens(Seq::<TokV>::empty()));
    assert(seq![TokV::IntLit(dec_value(ds) as i64)] + Seq::<TokV>::empty() =~= seq![
        TokV::IntLit(dec_value(ds) as i64),
    ]);
}

/// What the lexer produced for the whole input.
pub enum LexOutcome {
    /// The tokens of the input.
    Tokens(Vec<Tok>),
    /// The position (in characters) where no token starts, before the end.
    Failed(usize),
    /// An integer literal does not fit in an `i64`. Such a text has no
    /// lexing at all: it is neither tokens nor a lexing error, and no
    /// caller may go on with it ([`crate::parser::parse_program`]
    /// requires that it does not occur; the driver stops there).
    Overflow,
}

/// The outcome that `r` describes, in terms of token views.
pub open spec fn outcome_view(r: LexOutcome) -> LexSpec {
    match r {
        LexOutcome::Tokens(ts) => LexSpec::Tokens(toks_view(ts@)),
        LexOutcome::Failed(p) => LexSpec::Failed(p as int),
        LexOutcome::Overflow => LexSpec::Overflow,
    }
}

/// `ts` followed by what `r` lexed.
pub open spec fn prepend(ts: Seq<TokV>, r: LexSpec) -> LexSpec {
    match r {
        LexSpec::Tokens(x) => LexSpec::Tokens(ts + x),
        other => other,
    }
}

/// Whether `c` belongs to class `cls` (see [`in_class`]).
fn in_class_exec(c: char, cls: &CharClass) -> (b: bool)
    ensures
        b == in_class(c, *cls),
{
    match cls {
        CharClass::Space => {
            ('\t' <= c && c <= '\r') || c == ' ' || c == '\u{85}' || c == '\u{a0}' || c
                == '\u{1680}' || ('\u{2000}' <= c && c <= '\u{200a}') || c == '\u{2028}' || c
                == '\u{2029}' || c == '\u{202f}' || c == '\u{205f}' || c == '\u{3000}'
        },
        CharClass::Word => ('a' <= c && c <= 'z') || ('A' <= c && c <= 'Z') || ('0' <= c && c
            <= '9') || c == '_',
        CharClass::Digit => '0' <= c && c <= '9',
        CharClass::Hex => ('0' <= c && c <= '9') || ('a' <= c && c <= 'f') || ('A' <= c && c
            <= 'F'),
    }
}

/// The length of the run of class `cls` at `k` (see [`run`]).
fn run_exec(cs: &Vec<char>, k: usize, cls: CharClass) -> (r: usize)
    requires
        k <= cs@.len(),
    ensures
        r == run(cs@, k as int, cls),
        k + r <= cs@.len(),
{
    let n = cs.len();
    let mut i = k;
    while i < n && in_class_exec(cs[i], &cls)
        invariant
            n == cs@.len(),
            k <= i <= n,
            run(cs@, k as int, cls) == (i - k) + run(cs@, i as int, cls),
        decreases n - i,
    {
        i = i + 1;
    }
    i - k
}

/// The value of a hexadecimal digit (see [`digit_value`]).
fn digit_value_exec(c: char) -> (d: u64)
    requires
        is_hex(c),
    ensures
        d == digit_value(c),
        d < 16,
{
    if '0' <= c && c <= '9' {
        (c as u64) - ('0' as u64)
    } else if 'a' <= c && c <= 'f' {
        (c as u64) - ('a' as u64) + 10
    } else {
        (c as u64) - ('A' as u64) + 10
    }
}

/// The value of the digits `cs[from..to]` in base 10 or 16, or `None`
/// when it exceeds `i64::MAX`.
fn digits_value(cs: &Vec<char>, from: usize, to: usize, hex: bool) -> (r: Option<i64>)
    requires
        from <= to <= cs@.len(),
        forall|i: int| from <= i < to ==> if hex {
            is_hex(#[trigger] cs@[i])
        } else {
            is_digit(cs@[i])
        },
    ensures
        ({
            let v = if hex {
                hex_value(cs@.subrange(from as int, to as int))
            } else {
                dec_value(cs@.subrange(from as int, to as int))
            };
            match r {
                Some(x) => v <= i64::MAX && x == v,
                None => v > i64::MAX,
            }
        }),
{
    let base: u64 = if hex {
        16
    } else {
        10
    };
    let mut acc: u64 = 0;
    let mut big = false;
    let mut i = from;
    assert(cs@.subrange(from as int, from as int) =~= Seq::<char>::empty());
    while i < to
        invariant
            from <= i <= to <= cs@.len(),
            base == if hex { 16u64 } else { 10u64 },
            forall|k: int| from <= k < to ==> if hex {
                is_hex(#[trigger] cs@[k])
            } else {
                is_digit(cs@[k])
            },
            ({
                let v = if hex {
                    hex_value(cs@.subrange(from as int, i as int))
                } else {
                    dec_value(cs@.subrange(from as int, i as int))
                };
                &&& big ==> v > i64::MAX
                &&& !big ==> v == acc && acc <= i64::MAX
            }),
        decreases to - i,
    {
        let c = cs[i];
        assert(is_hex(c)) by {
            if !hex {
                assert(is_digit(c));
            }
        }
        let d = digit_value_exec(c);
        let ghost prev = cs@.subrange(from as int, i as int);
        let ghost next = cs@.subrange(from as int, i + 1);
        assert(next.drop_last() =~= prev);
        assert(next.last() == c);
        if !big {
            let lim: u64 = (0x7fff_ffff_ffff_ffffu64 - d) / base;
            if acc > lim {
                big = true;
                assert(acc * base + d > i64::MAX) by (nonlinear_arith)
                    requires
                        acc > lim,
                        lim == (0x7fff_ffff_ffff_ffff - d) / (base as int),
                        base == 10 || base == 16,
                        d < 16,
                ;
            } else {
                assert(acc * base + d <= i64::MAX) by (nonlinear_arith)
                    requires
                        acc <= lim,
                        lim == (0x7fff_ffff_ffff_ffff - d) / (base as int),
                        base == 10 || base == 16,
                        d < 16,
                ;
                acc = acc * base + d;
            }
        }
        i = i + 1;
    }
    if big {
        None
    } else {
        Some(acc as i64)
    }
}

/// What [`lex_token_exec`] found.
enum Found {
    Token(Tok, usize),
    Overflow,
    NoToken,
}

spec fn found_view(f: Found) -> Lexed {
    match f {
        Found::Token(t, e) => Lexed::Token(t@, e as int),
        Found::Overflow => Lexed::Overflow,
        Found::NoToken => Lexed::NoToken,
    }
}

/// Whether `cs[p..e]` is the text of `lit`.
fn word_is(cs: &Vec<char>, p: usize, e: usize, lit: &str) -> (b: bool)
    requires
        p <= e <= cs@.len(),
    ensures
        b == (cs@.subrange(p as int, e as int) == lit@),
{
    let n = lit.unicode_len();
    if e - p != n {
        return false;
    }
    let mut i: usize = 0;
    while i < n
        invariant
            n == lit@.len(),
            e - p == n,
            p <= e <= cs@.len(),
            0 <= i <= n,
            forall|k: int| 0 <= k < i ==> cs@[p + k] == lit@[k],
        decreases n - i,
    {
        if cs[p + i] != lit.get_char(i) {
            assert(cs@.subrange(p as int, e as int)[i as int] != lit@[i as int]);
            return false;
        }
        i = i + 1;
    }
    assert(cs@.subrange(p as int, e as int) =~= lit@);
    true
}

/// The characters `cs[p..e]` as a string.
fn text_of(cs: &Vec<char>, p: usize, e: usize) -> (w: String)
    requires
        p <= e <= cs@.len(),
    ensures
        w@ == cs@.subrange(p as int, e as int),
{
    let mut w = String::new();
    let mut i = p;
    while i < e
        invariant
            p <= i <= e <= cs@.len(),
            w@ == cs@.subrange(p as int, i as int),
        decreases e - i,
    {
        push_char(&mut w, cs[i]);
        assert(cs@.subrange(p as int, i + 1) =~= cs@.subrange(p as int, i as int).push(cs@[i as int]));
        i = i + 1;
    }
    w
}

/// The token of the word `cs[p..e]` (see [`word_token`]).
fn word_token_exec(cs: &Vec<char>, p: usize, e: usize) -> (t: Tok)
    requires
        p <= e <= cs@.len(),
    ensures
        t@ == word_token(cs@.subrange(p as int, e as int)),
{
    if word_is(cs, p, e, "void") {
        Tok::Void
    } else if word_is(cs, p, e, "return") {
        Tok::Return
    } else if word_is(cs, p, e, "u32") {
        Tok::U32
    } else if word_is(cs, p, e, "if") {
        Tok::If
    } else if word_is(cs, p, e, "while") {
        Tok::While
    } else {
        Tok::Ident(text_of(cs, p, e))
    }
}

/// The punctuation token at `p` (see [`punct_token`]).
fn punct_exec(cs: &Vec<char>, p: usize) -> (r: Found)
    requires
        p < cs@.len(),
    ensures
        found_view(r) == punct_token(cs@, p as int),
{
    let c = cs[p];
    let two = p < cs.len() - 1;
    let d = if two {
        cs[p + 1]
    } else {
        ' '
    };
    if two && c == '=' && d == '=' {
        Found::Token(Tok::BinEq, p + 2)
    } else if two && c == '!' && d == '=' {
        Found::Token(Tok::BinNEq, p + 2)
    } else if two && c == '<' && d == '<' {
        Found::Token(Tok::LShift, p + 2)
    } else if two && c == '>' && d == '>' {
        Found::Token(Tok::RShift, p + 2)
    } else if two && c == '<' && d == '=' {
        Found::Token(Tok::LE, p + 2)
    } else if two && c == '>' && d == '=' {
        Found::Token(Tok::GE, p + 2)
    } else if two && c == '&' && d == '&' {
        Found::Token(Tok::And, p + 2)
    } else if two && c == '|' && d == '|' {
        Found::Token(Tok::Or, p + 2)
    } else if c == '(' {
        Found::Token(Tok::LParen, p + 1)
    } else if c == ')' {
        Found::Token(Tok::RParen, p + 1)
    } else if c == '{' {
        Found::Token(Tok::LBrace, p + 1)
    } else if c == '}' {
        Found::Token(Tok::RBrace, p + 1)
    } else if c == ';' {
        Found::Token(Tok::Semi, p + 1)
    } else if c == ',' {
        Found::Token(Tok::Comma, p + 1)
    } else if c == '*' {
        Found::Token(Tok::Star, p + 1)
    } else if c == '<' {
        Found::Token(Tok::LT, p + 1)
    } else if c == '>' {
        Found::Token(Tok::GT, p + 1)
    } else if c == '=' {
        Found::Token(Tok::Eq, p + 1)
    } else if c == '+' {
        Found::Token(Tok::Plus, p + 1)
    } else if c == '-' {
        Found::Token(Tok::Minus, p + 1)
    } else if c == '&' {
        Found::Token(Tok::AddrOf, p + 1)
    } else {
        Found::NoToken
    }
}

/// The token at `p` (see [`lex_token`]).
fn lex_token_exec(cs: &Vec<char>, p: usize) -> (r: Found)
    requires
        p < cs@.len(),
    ensures
        found_view(r) == lex_token(cs@, p as int),
        r matches Found::Token(_, e) ==> p < e <= cs@.len(),
{
    proof {
        lemma_token_end(cs@, p as int);
    }
    let n = cs.len();
    let c = cs[p];
    if ('a' <= c && c <= 'z') || ('A' <= c && c <= 'Z') || c == '_' {
        let e = p + 1 + run_exec(cs, p + 1, CharClass::Word);
        Found::Token(word_token_exec(cs, p, e), e)
    } else if '0' <= c && c <= '9' {
        let hex = c == '0' && p + 1 < n && (cs[p + 1] == 'x' || cs[p + 1] == 'X') && run_exec(
            cs,
            p + 2,
            CharClass::Hex,
        ) > 0;
        if hex {
            let e = p + 2 + run_exec(cs, p + 2, CharClass::Hex);
            proof {
                lemma_run_bound(cs@, p + 2, CharClass::Hex);
            }
            match digits_value(cs, p + 2, e, true) {
                Some(v) => Found::Token(Tok::IntLit(v), e),
                None => Found::Overflow,
            }
        } else if c == '0' {
            Found::Token(Tok::IntLit(0), p + 1)
        } else {
            let e = p + 1 + run_exec(cs, p + 1, CharClass::Digit);
            proof {
                lemma_run_bound(cs@, p + 1, CharClass::Digit);
            }
            match digits_value(cs, p, e, false) {
                Some(v) => Found::Token(Tok::IntLit(v), e),
                None => Found::Overflow,
            }
        }
    } else {
        punct_exec(cs, p)
    }
}

/// The characters of `s`.
fn chars_of(s: &str) -> (cs: Vec<char>)
    ensures
        cs@ == s@,
{
    let mut cs: Vec<char> = Vec::new();
    for c in it: s.chars()
        invariant
            it.seq() == s@,
            cs@ == it.seq().take(it.index() as int),
    {
        cs.push(c);
    }
    cs
}

/// Lexes a whole source text (see [`lex_spec`]). A text with an integer
/// literal that does not fit in an `i64` gives `Overflow`, which stands
/// for the input having no lexing; for every other text the result is
/// the tokens or the place where lexing fails.
pub fn lex(input: &str) -> (r: LexOutcome)
    ensures
        outcome_view(r) == lex_spec(input@),
{
    let cs = chars_of(input);
    let n = cs.len();
    let mut toks: Vec<Tok> = Vec::new();
    let mut pos: usize = 0;
    assert(toks_view(toks@) =~= Seq::<TokV>::empty());
    assert(prepend(Seq::empty(), lex_from(cs@, 0)) =~= lex_from(cs@, 0)) by {
        match lex_from(cs@, 0) {
            LexSpec::Tokens(x) => {
                assert(Seq::<TokV>::empty() + x =~= x);
            },
            _ => {},
        }
    }
    loop
        invariant
            n == cs@.len(),
            cs@ == input@,
            pos <= n,
            lex_spec(input@) == prepend(toks_view(toks@), lex_from(cs@, pos as int)),
        decreases n - pos,
    {
        let p1 = pos + run_exec(&cs, pos, CharClass::Space);
        let found = if p1 < n {
            lex_token_exec(&cs, p1)
        } else {
            Found::NoToken
        };
        match found {
            Found::Token(t, e) => {
                let q = e + run_exec(&cs, e, CharClass::Space);
                proof {
                    let tv = t@;
                    assert(toks_view(toks@.push(t)) =~= toks_view(toks@).push(tv));
                    match lex_from(cs@, q as int) {
                        LexSpec::Tokens(x) => {
                            assert(toks_view(toks@) + (seq![tv] + x) =~= toks_view(toks@).push(tv)
                                + x);
                        },
                        _ => {},
                    }
                }
                toks.push(t);
                pos = q;
            },
            Found::Overflow => {
                return LexOutcome::Overflow;
            },
            Found::NoToken => {
                if pos == n {
                    assert(toks_view(toks@) + Seq::<TokV>::empty() =~= toks_view(toks@));
                    return LexOutcome::Tokens(toks);
                } else {
                    return LexOutcome::Failed(pos);
                }
            },
        }
    }
}

} // verus!
