//! The lexer and the parser of the library checked against the same
//! grammar written with chumsky's combinators, on fixed and on
//! pseudo-random inputs.

use archic::ast::{BaseType, Expr, Function, Program, Stmt, Type};
use archic::lexer::{lex, LexOutcome};
use archic::parser::{parse_program, parse_tokens, Tok};
use chumsky::error::Error;
use chumsky::prelude::{choice, end, filter_map, just, recursive, Parser, Simple};
use chumsky::text;
use chumsky::text::TextParser;

fn chumsky_lexer() -> impl Parser<char, Vec<Tok>, Error = Simple<char>> {
    let word = text::ident().map(|s: String| match s.as_str() {
        "void" => Tok::Void,
        "return" => Tok::Return,
        "u32" => Tok::U32,
        "if" => Tok::If,
        "while" => Tok::While,
        _ => Tok::Ident(s),
    });
    let hex = just("0x")
        .or(just("0X"))
        .ignore_then(text::digits(16))
        .map(|s: String| Tok::IntLit(i64::from_str_radix(&s, 16).unwrap()));
    let dec = text::int(10).map(|s: String| Tok::IntLit(s.parse::<i64>().unwrap()));
    let number = choice((hex, dec));
    let sign = choice((
        just("==").to(Tok::BinEq),
        just("!=").to(Tok::BinNEq),
        just("<<").to(Tok::LShift),
        just(">>").to(Tok::RShift),
        just("<=").to(Tok::LE),
        just(">=").to(Tok::GE),
        just("&&").to(Tok::And),
        just("||").to(Tok::Or),
        just('(').to(Tok::LParen),
        just(')').to(Tok::RParen),
        just('{').to(Tok::LBrace),
        just('}').to(Tok::RBrace),
        just(';').to(Tok::Semi),
        just(',').to(Tok::Comma),
        just('*').to(Tok::Star),
        just('<').to(Tok::LT),
        just('>').to(Tok::GT),
        just('=').to(Tok::Eq),
        just('+').to(Tok::Plus),
        just('-').to(Tok::Minus),
        just('&').to(Tok::AddrOf),
    ));
    choice((word, number, sign)).padded().repeated().then_ignore(end())
}

#[derive(Clone, Copy)]
enum Op {
    Add,
    Sub,
    And,
    Or,
    Shl,
    Shr,
    Eq,
    Ne,
    Le,
    Ge,
    Gt,
    Lt,
}

fn chumsky_parser() -> impl Parser<Tok, Program, Error = Simple<Tok>> {
    let name = filter_map(|span, t: Tok| match t {
        Tok::Ident(n) => Ok(n),
        other => Err(Simple::expected_input_found(span, None, Some(other))),
    });
    let number = filter_map(|span, t: Tok| match t {
        Tok::IntLit(n) => Ok(n),
        other => Err(Simple::expected_input_found(span, None, Some(other))),
    });
    let op = filter_map(|span, t: Tok| match t {
        Tok::Plus => Ok(Op::Add),
        Tok::Minus => Ok(Op::Sub),
        Tok::And => Ok(Op::And),
        Tok::Or => Ok(Op::Or),
        Tok::LShift => Ok(Op::Shl),
        Tok::RShift => Ok(Op::Shr),
        Tok::BinEq => Ok(Op::Eq),
        Tok::BinNEq => Ok(Op::Ne),
        Tok::LE => Ok(Op::Le),
        Tok::GE => Ok(Op::Ge),
        Tok::GT => Ok(Op::Gt),
        Tok::LT => Ok(Op::Lt),
        other => Err(Simple::expected_input_found(span, None, Some(other))),
    });

    let expr = recursive(|expr| {
        let paren = just(Tok::LParen).ignore_then(expr.clone()).then_ignore(just(Tok::RParen));
        let args = expr
            .clone()
            .separated_by(just(Tok::Comma))
            .allow_trailing()
            .or_not()
            .map(|a: Option<Vec<Expr>>| a.unwrap_or_default());
        let call = name
            .clone()
            .then_ignore(just(Tok::LParen))
            .then(args)
            .then_ignore(just(Tok::RParen))
            .map(|(name, args)| Expr::Call { name, args });
        let primary = choice((call, number.clone().map(Expr::Int), name.clone().map(Expr::Var), paren));
        let unary = recursive(|unary| {
            choice((
                just(Tok::AddrOf).ignore_then(unary.clone()).map(|e| Expr::AddrOf(Box::new(e))),
                just(Tok::Star).ignore_then(unary.clone()).map(|e| Expr::Deref(Box::new(e))),
                primary.clone(),
            ))
        });
        unary.clone().then(op.clone().then(unary).repeated()).foldl(|l, (op, r)| {
            let (l, r) = (Box::new(l), Box::new(r));
            match op {
                Op::Add => Expr::Add(l, r),
                Op::Sub => Expr::Sub(l, r),
                Op::And => Expr::And(l, r),
                Op::Or => Expr::Or(l, r),
                Op::Shl => Expr::LShift(l, r),
                Op::Shr => Expr::RShift(l, r),
                Op::Eq => Expr::BinEq(l, r),
                Op::Ne => Expr::BinNEq(l, r),
                Op::Le => Expr::LE(l, r),
                Op::Ge => Expr::GE(l, r),
                Op::Gt => Expr::GT(l, r),
                Op::Lt => Expr::LT(l, r),
            }
        })
    });

    let base = choice((just(Tok::Void).to(BaseType::Void), just(Tok::U32).to(BaseType::U32)));
    let ty = base
        .then(just(Tok::Star).repeated())
        .map(|(base, stars)| Type { base, ptr: stars.len() as u32 });
    let decl = ty
        .clone()
        .then(name.clone())
        .then_ignore(just(Tok::Eq))
        .then(expr.clone())
        .then_ignore(just(Tok::Semi))
        .map(|((ty, name), init)| Stmt::Decl { ty, name, init });
    let target = choice((
        name.clone().map(Expr::Var),
        just(Tok::Star).ignore_then(expr.clone()).map(|e| Expr::Deref(Box::new(e))),
    ));
    let assign = target
        .then_ignore(just(Tok::Eq))
        .then(expr.clone())
        .then_ignore(just(Tok::Semi))
        .map(|(target, value)| Stmt::Assign { target, value });
    let ret = just(Tok::Return).ignore_then(expr.clone()).then_ignore(just(Tok::Semi)).map(Stmt::Return);
    let expr_stmt = expr.clone().then_ignore(just(Tok::Semi)).map(Stmt::Expr);
    let stmt = recursive(|stmt| {
        let block = just(Tok::LBrace).ignore_then(stmt.repeated()).then_ignore(just(Tok::RBrace));
        let cond = just(Tok::LParen).ignore_then(expr.clone()).then_ignore(just(Tok::RParen));
        let if_stmt = just(Tok::If)
            .ignore_then(cond.clone())
            .then(block.clone())
            .map(|(cond, body)| Stmt::If { cond, body });
        let while_stmt = just(Tok::While)
            .ignore_then(cond)
            .then(block)
            .map(|(cond, body)| Stmt::While { cond, body });
        choice((decl, assign, ret, if_stmt, while_stmt, expr_stmt))
    });
    let body = just(Tok::LBrace).ignore_then(stmt.repeated()).then_ignore(just(Tok::RBrace));
    let params = ty
        .clone()
        .then(name.clone())
        .separated_by(just(Tok::Comma))
        .allow_trailing()
        .or_not()
        .map(|p: Option<Vec<(Type, String)>>| p.unwrap_or_default());
    let function = ty
        .then(name)
        .then_ignore(just(Tok::LParen))
        .then(params)
        .then_ignore(just(Tok::RParen))
        .then(body)
        .map(|(((return_ty, name), params), body)| Function { return_ty, name, params, body });
    function.repeated().at_least(1).then_ignore(end()).map(|funcs| Program { funcs })
}

/// Lexes with the library; `None` where it reports an error.
fn library_tokens(src: &str) -> Option<Vec<Tok>> {
    match lex(src) {
        LexOutcome::Tokens(ts) => Some(ts),
        LexOutcome::Failed(_) => None,
        LexOutcome::Overflow => panic!("literal overflow in a test input"),
    }
}

fn check_lexing(src: &str) {
    let expected = chumsky_lexer().parse(src).ok();
    assert_eq!(library_tokens(src), expected, "lexing {:?}", src);
}

fn check_parsing(ts: &Vec<Tok>) {
    let expected = chumsky_parser().parse(ts.clone()).ok();
    assert_eq!(parse_tokens(ts), expected, "parsing {:?}", ts);
}

/// A small pseudo-random generator (xorshift).
struct Rng(u64);

impl Rng {
    fn next(&mut self) -> u64 {
        let mut x = self.0;
        x ^= x << 13;
        x ^= x >> 7;
        x ^= x << 17;
        self.0 = x;
        x
    }

    fn below(&mut self, n: usize) -> usize {
        (self.next() % n as u64) as usize
    }
}

const PROGRAMS: [&str; 8] = [
    "u32 main() { return 0; }",
    "void f(u32 a, u32** b,) { } u32 main() { f(1, &x,); return g(); }",
    "u32 main() { u32* p = &x; *p = x + 1; **q = 0; if (x < 3) { x = 4; } while (x) { f(x); } return x; }",
    "u32 main() { *p + 1 = 2; return &*x + **y == 0x1f - 07; }",
    "u32 main() { return 2 * 3; }",
    "u32 main() { } }",
    "u32 main() { x = = 1; }",
    "u32 f(u32 a,,) { }",
];

#[test]
fn chumsky_agrees_on_sample_programs() {
    for src in PROGRAMS {
        check_lexing(src);
        if let Some(ts) = library_tokens(src) {
            check_parsing(&ts);
        }
    }
}

#[test]
fn chumsky_agrees_on_lexing_edge_cases() {
    let cases = [
        "", " ", "\n\t", "007", "0x", "0xg", "0XAb", "12ab", "<<=", "&&&", "===", "!x", "a | b",
        "u32\u{a0}x\u{2003}y", "é", "_a1 __ if2", "voidx void", "a\"b", "x\r\ny",
    ];
    for src in cases {
        check_lexing(src);
    }
}

#[test]
fn chumsky_agrees_on_random_text() {
    let alphabet: Vec<char> = "ab_0179xXfF(){};,*<>=!&|+- \n\t\u{a0}é".chars().collect();
    let mut rng = Rng(0x9E37_79B9_7F4A_7C15);
    for _ in 0..3000 {
        let len = rng.below(14);
        let src: String = (0..len).map(|_| alphabet[rng.below(alphabet.len())]).collect();
        check_lexing(&src);
    }
}

#[test]
fn chumsky_agrees_on_random_tokens() {
    let pool = [
        Tok::Void,
        Tok::U32,
        Tok::U32,
        Tok::Return,
        Tok::Ident("x".to_string()),
        Tok::Ident("f".to_string()),
        Tok::Ident("main".to_string()),
        Tok::IntLit(1),
        Tok::LParen,
        Tok::RParen,
        Tok::LParen,
        Tok::RParen,
        Tok::LBrace,
        Tok::RBrace,
        Tok::LBrace,
        Tok::RBrace,
        Tok::Semi,
        Tok::Semi,
        Tok::Eq,
        Tok::Plus,
        Tok::LT,
        Tok::If,
        Tok::While,
        Tok::Comma,
        Tok::Star,
        Tok::AddrOf,
    ];
    let mut rng = Rng(0x2545_F491_4F6C_DD1D);
    for _ in 0..4000 {
        let mut ts: Vec<Tok> = Vec::new();
        // A function header first, most of the time, so that bodies get tried.
        if rng.below(4) != 0 {
            ts.extend([Tok::U32, Tok::Ident("main".to_string()), Tok::LParen, Tok::RParen, Tok::LBrace]);
        }
        let len = rng.below(12);
        for _ in 0..len {
            ts.push(pool[rng.below(pool.len())].clone());
        }
        if rng.below(3) != 0 {
            ts.push(Tok::RBrace);
        }
        check_parsing(&ts);
    }
}

#[test]
fn chumsky_agrees_on_mutated_programs() {
    let mut rng = Rng(0xDEAD_BEEF_CAFE_F00D);
    let bases: Vec<Vec<Tok>> = PROGRAMS.iter().filter_map(|s| library_tokens(s)).collect();
    for _ in 0..2000 {
        let mut ts = bases[rng.below(bases.len())].clone();
        let edits = 1 + rng.below(3);
        for _ in 0..edits {
            if ts.is_empty() {
                break;
            }
            let i = rng.below(ts.len());
            match rng.below(3) {
                0 => {
                    ts.remove(i);
                }
                1 => {
                    let t = ts[rng.below(ts.len())].clone();
                    ts.insert(i, t);
                }
                _ => {
                    let j = rng.below(ts.len());
                    ts.swap(i, j);
                }
            }
        }
        check_parsing(&ts);
    }
}

fn gen_expr(rng: &mut Rng, depth: usize, out: &mut String) {
    let pick = if depth == 0 { rng.below(3) } else { rng.below(8) };
    match pick {
        0 => out.push_str(["0", "7", "42", "0x1F", "0"][rng.below(5)]),
        1 => out.push_str(["x", "y", "_t1"][rng.below(3)]),
        2 => {
            out.push_str("f(");
            let n = rng.below(3);
            for k in 0..n {
                if k > 0 {
                    out.push_str(", ");
                }
                if depth > 0 {
                    gen_expr(rng, depth - 1, out);
                } else {
                    out.push('1');
                }
            }
            if rng.below(4) == 0 {
                out.push(',');
            }
            out.push(')');
        }
        3 => {
            out.push(['&', '*'][rng.below(2)]);
            gen_expr(rng, depth - 1, out);
        }
        4 => {
            out.push('(');
            gen_expr(rng, depth - 1, out);
            out.push(')');
        }
        _ => {
            gen_expr(rng, depth - 1, out);
            let ops = [" + ", " - ", " && ", " || ", " << ", " >> ", " == ", " != ", " <= ", " >= ", " > ", " < "];
            out.push_str(ops[rng.below(ops.len())]);
            gen_expr(rng, depth - 1, out);
        }
    }
}

fn gen_stmt(rng: &mut Rng, depth: usize, out: &mut String) {
    let pick = if depth == 0 { rng.below(4) } else { rng.below(6) };
    match pick {
        0 => {
            out.push_str(["u32 ", "u32* ", "void ", "u32 ** "][rng.below(4)]);
            out.push_str("v = ");
            gen_expr(rng, 2, out);
            out.push_str("; ");
        }
        1 => {
            out.push_str(["x", "*p", "**q", "*x + 1"][rng.below(4)]);
            out.push_str(" = ");
            gen_expr(rng, 2, out);
            out.push_str("; ");
        }
        2 => {
            out.push_str("return ");
            gen_expr(rng, 2, out);
            out.push_str("; ");
        }
        3 => {
            gen_expr(rng, 2, out);
            out.push_str("; ");
        }
        _ => {
            out.push_str(["if (", "while ("][rng.below(2)]);
            gen_expr(rng, 2, out);
            out.push_str(") { ");
            for _ in 0..rng.below(3) {
                gen_stmt(rng, depth - 1, out);
            }
            out.push_str("} ");
        }
    }
}

#[test]
fn chumsky_agrees_on_generated_programs() {
    let mut rng = Rng(0x1234_5678_9ABC_DEF1);
    let mut parsed = 0;
    for _ in 0..1500 {
        let mut src = String::new();
        for _ in 0..1 + rng.below(2) {
            src.push_str(["u32 ", "void ", "u32* "][rng.below(3)]);
            src.push_str(["main", "f", "g"][rng.below(3)]);
            src.push_str(["()", "(u32 a)", "(u32 a, u32* b,)"][rng.below(3)]);
            src.push_str(" { ");
            for _ in 0..rng.below(4) {
                gen_stmt(&mut rng, 2, &mut src);
            }
            src.push_str("} ");
        }
        // Now and then, damage the text.
        if rng.below(5) == 0 && !src.is_empty() {
            let i = rng.below(src.len());
            if src.is_char_boundary(i) && src.is_char_boundary(i + 1) {
                src.replace_range(i..i + 1, "");
            }
        }
        check_lexing(&src);
        if let Some(ts) = library_tokens(&src) {
            check_parsing(&ts);
            if parse_tokens(&ts).is_some() {
                parsed += 1;
            }
        }
    }
    assert!(parsed > 500);
}

/// A lexing error message with the items of each "expected one of" list
/// sorted, since their order is not fixed.
fn normalized(msg: &str) -> Vec<String> {
    msg.lines()
        .map(|line| match line.split_once(" but expected one of ") {
            Some((head, items)) => {
                let mut v: Vec<&str> = items.split(", ").collect();
                v.sort();
                format!("{} but expected one of {}", head, v.join(", "))
            }
            None => line.to_string(),
        })
        .collect()
}

fn check_lex_message(src: &str) {
    if let Err(errs) = chumsky_lexer().parse(src) {
        let mut expected = String::from("lex error(s):\n");
        for e in errs {
            expected.push_str(&format!("  {}\n", e));
        }
        let got = parse_program(src).unwrap_err();
        assert_eq!(normalized(&got), normalized(&expected), "message for {:?}", src);
    }
}

#[test]
fn chumsky_agrees_on_lex_error_messages() {
    for src in ["@", " @", "x @", "x@", "!x", "! ", "!", "|a", "a |", "   ", "\n", "x = !y;", "0x@", "<@", "a\u{0}", "é", "\"s\""] {
        check_lex_message(src);
    }
    let alphabet: Vec<char> = "ab_019xX(){};,*<>=!&|+- \n\t\u{a0}é@\"".chars().collect();
    let mut rng = Rng(0x0BAD_5EED_1234_4321);
    for _ in 0..3000 {
        let len = rng.below(10);
        let src: String = (0..len).map(|_| alphabet[rng.below(alphabet.len())]).collect();
        check_lex_message(&src);
    }
}
