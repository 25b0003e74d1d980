use archic::ast::{BaseType, Expr, Function, Program, Stmt, Type};
use archic::lexer::{lex, LexOutcome};
use archic::parser::{parse_program, parse_tokens, Tok};

fn var(s: &str) -> Expr {
    Expr::Var(s.to_string())
}

fn lit(i: i64) -> Expr {
    Expr::Int(i)
}

fn bx(e: Expr) -> Box<Expr> {
    Box::new(e)
}

fn u32_ty(ptr: u32) -> Type {
    Type { base: BaseType::U32, ptr }
}

fn void_ty(ptr: u32) -> Type {
    Type { base: BaseType::Void, ptr }
}

fn func(return_ty: Type, name: &str, params: Vec<(Type, String)>, body: Vec<Stmt>) -> Function {
    Function { return_ty, name: name.to_string(), params, body }
}

fn parse_ok(src: &str) -> Program {
    match parse_program(src) {
        Ok(p) => p,
        Err(e) => panic!("unexpected error: {}", e),
    }
}

/// The body of the only function of `src`.
fn body_of(src: &str) -> Vec<Stmt> {
    let mut p = parse_ok(src);
    assert_eq!(p.funcs.len(), 1);
    p.funcs.pop().unwrap().body
}

const PARSE_ERROR: &str = "parse error(s):\n  the tokens do not form a program\n";

#[test]
fn parse_minimal_program() {
    let p = parse_ok("u32 main() { return 0; }");
    assert_eq!(
        p,
        Program { funcs: vec![func(u32_ty(0), "main", vec![], vec![Stmt::Return(lit(0))])] }
    );
}

#[test]
fn parse_several_functions_and_params() {
    let p = parse_ok("void f(u32 a, u32** b,) { } u32 main() { f(1, &x,); return g(); }");
    assert_eq!(
        p,
        Program {
            funcs: vec![
                func(
                    void_ty(0),
                    "f",
                    vec![(u32_ty(0), "a".to_string()), (u32_ty(2), "b".to_string())],
                    vec![],
                ),
                func(
                    u32_ty(0),
                    "main",
                    vec![],
                    vec![
                        Stmt::Expr(Expr::Call {
                            name: "f".to_string(),
                            args: vec![lit(1), Expr::AddrOf(bx(var("x")))],
                        }),
                        Stmt::Return(Expr::Call { name: "g".to_string(), args: vec![] }),
                    ],
                ),
            ],
        }
    );
}

#[test]
fn parse_binary_operators_group_from_the_left() {
    let b = body_of("u32 main() { return 1 - 2 - 3; }");
    assert_eq!(b, vec![Stmt::Return(Expr::Sub(bx(Expr::Sub(bx(lit(1)), bx(lit(2)))), bx(lit(3))))]);
    let b = body_of("u32 main() { return 1 == 2 + 3; }");
    assert_eq!(b, vec![Stmt::Return(Expr::Add(bx(Expr::BinEq(bx(lit(1)), bx(lit(2)))), bx(lit(3))))]);
    let b = body_of("u32 main() { return a + (b << c); }");
    assert_eq!(b, vec![Stmt::Return(Expr::Add(bx(var("a")), bx(Expr::LShift(bx(var("b")), bx(var("c"))))))]);
}

#[test]
fn parse_every_binary_operator() {
    let b = body_of(
        "u32 main() { a + b; a - b; a && b; a || b; a << b; a >> b; a == b; a != b; a <= b; a >= b; a > b; a < b; }",
    );
    let (a, c) = (|| bx(var("a")), || bx(var("b")));
    assert_eq!(
        b,
        vec![
            Stmt::Expr(Expr::Add(a(), c())),
            Stmt::Expr(Expr::Sub(a(), c())),
            Stmt::Expr(Expr::And(a(), c())),
            Stmt::Expr(Expr::Or(a(), c())),
            Stmt::Expr(Expr::LShift(a(), c())),
            Stmt::Expr(Expr::RShift(a(), c())),
            Stmt::Expr(Expr::BinEq(a(), c())),
            Stmt::Expr(Expr::BinNEq(a(), c())),
            Stmt::Expr(Expr::LE(a(), c())),
            Stmt::Expr(Expr::GE(a(), c())),
            Stmt::Expr(Expr::GT(a(), c())),
            Stmt::Expr(Expr::LT(a(), c())),
        ]
    );
}

#[test]
fn parse_unary_operators() {
    let b = body_of("u32 main() { return &*x + **y; }");
    assert_eq!(
        b,
        vec![Stmt::Return(Expr::Add(
            bx(Expr::AddrOf(bx(Expr::Deref(bx(var("x")))))),
            bx(Expr::Deref(bx(Expr::Deref(bx(var("y")))))),
        ))]
    );
}

#[test]
fn parse_statements() {
    let b = body_of(
        "u32 main() { u32* p = &x; x = 3; *p = x + 1; **q = 0; if (x < 3) { x = 4; } while (x) { f(x); } return x; }",
    );
    assert_eq!(
        b,
        vec![
            Stmt::Decl { ty: u32_ty(1), name: "p".to_string(), init: Expr::AddrOf(bx(var("x"))) },
            Stmt::Assign { target: var("x"), value: lit(3) },
            Stmt::Assign { target: Expr::Deref(bx(var("p"))), value: Expr::Add(bx(var("x")), bx(lit(1))) },
            Stmt::Assign { target: Expr::Deref(bx(Expr::Deref(bx(var("q"))))), value: lit(0) },
            Stmt::If {
                cond: Expr::LT(bx(var("x")), bx(lit(3))),
                body: vec![Stmt::Assign { target: var("x"), value: lit(4) }],
            },
            Stmt::While {
                cond: var("x"),
                body: vec![Stmt::Expr(Expr::Call { name: "f".to_string(), args: vec![var("x")] })],
            },
            Stmt::Return(var("x")),
        ]
    );
}

#[test]
fn parse_assignment_target_takes_a_whole_expression() {
    let b = body_of("u32 main() { *p + 1 = 2; }");
    assert_eq!(
        b,
        vec![Stmt::Assign { target: Expr::Deref(bx(Expr::Add(bx(var("p")), bx(lit(1))))), value: lit(2) }]
    );
}

#[test]
fn parse_nested_blocks() {
    let b = body_of("u32 main() { if (1) { while (0) { } if (2) { return 3; } } }");
    assert_eq!(
        b,
        vec![Stmt::If {
            cond: lit(1),
            body: vec![
                Stmt::While { cond: lit(0), body: vec![] },
                Stmt::If { cond: lit(2), body: vec![Stmt::Return(lit(3))] },
            ],
        }]
    );
}

#[test]
fn parse_void_declaration_is_syntax() {
    let b = body_of("void main() { void v = 0; void* w = 1; }");
    assert_eq!(
        b,
        vec![
            Stmt::Decl { ty: void_ty(0), name: "v".to_string(), init: lit(0) },
            Stmt::Decl { ty: void_ty(1), name: "w".to_string(), init: lit(1) },
        ]
    );
}

#[test]
fn parse_rejects_multiplication() {
    assert_eq!(parse_program("u32 main() { return 2 * 3; }"), Err(PARSE_ERROR.to_string()));
}

#[test]
fn parse_requires_a_function() {
    assert_eq!(parse_program(""), Err(PARSE_ERROR.to_string()));
}

#[test]
fn parse_rejects_trailing_tokens() {
    assert_eq!(parse_program("u32 main() { } }"), Err(PARSE_ERROR.to_string()));
    assert_eq!(parse_program("u32 main() { return 1 }"), Err(PARSE_ERROR.to_string()));
    assert_eq!(parse_program("u32 main() { return; }"), Err(PARSE_ERROR.to_string()));
}

#[test]
fn parse_rejects_keyword_as_name() {
    assert_eq!(parse_program("u32 while() { }"), Err(PARSE_ERROR.to_string()));
}

#[test]
fn parse_reports_lex_errors() {
    assert_eq!(
        parse_program("u32 main() { return !x; }"),
        Err("lex error(s):\n  found \"x\" but expected \"=\"\n".to_string())
    );
    assert_eq!(
        parse_program("a |"),
        Err("lex error(s):\n  found end of input but expected \"|\"\n".to_string())
    );
    assert_eq!(
        parse_program("   "),
        Err("lex error(s):\n  found end of input but expected one of \"0\", \"=\", \"!\", \"<\", \">\", \"&\", \"|\", \"(\", \")\", \"{\", \"}\", \";\", \",\", \"*\", \"+\", \"-\"\n".to_string())
    );
    assert_eq!(
        parse_program("u32 x@"),
        Err("lex error(s):\n  found \"@\" but expected one of \"0\", \"=\", \"!\", \"<\", \">\", \"&\", \"|\", \"(\", \")\", \"{\", \"}\", \";\", \",\", \"*\", \"+\", \"-\", end of input\n".to_string())
    );
}

#[test]
fn parse_tokens_directly() {
    let ts = vec![
        Tok::Void,
        Tok::Ident("f".to_string()),
        Tok::LParen,
        Tok::RParen,
        Tok::LBrace,
        Tok::RBrace,
    ];
    assert_eq!(parse_tokens(&ts), Some(Program { funcs: vec![func(void_ty(0), "f", vec![], vec![])] }));
    assert_eq!(parse_tokens(&ts[..5].to_vec()), None);
    assert_eq!(parse_tokens(&vec![]), None);
}

#[test]
fn parse_tokens_agrees_with_parse_program() {
    let src = "u32 main() { u32 x = 0x10; while (x > 0) { x = x - 1; } return x; }";
    let ts = match lex(src) {
        LexOutcome::Tokens(ts) => ts,
        _ => panic!("lexing failed"),
    };
    assert_eq!(parse_tokens(&ts), Some(parse_ok(src)));
}

#[test]
fn cloned_program_is_equal() {
    let p = parse_ok(
        "void f(u32* a) { *a = g(1, &b) << 2; if (a) { while (0) { } } } u32 main() { u32 x = 0; return x; }",
    );
    let q = p.clone();
    assert_eq!(p, q);
    let e = Expr::ArrayLit(vec![lit(1), Expr::Str("s".to_string()), Expr::Deref(bx(var("z")))]);
    assert_eq!(e.clone(), e);
    let s = Stmt::For { init: Some(Box::new(Stmt::Expr(lit(0)))), cond: Some(var("c")), step: None, body: vec![] };
    assert_eq!(s.clone(), s);
}

fn expr_is_source(e: &Expr) -> bool {
    match e {
        Expr::Int(_) | Expr::Var(_) => true,
        Expr::Call { args, .. } => args.iter().all(expr_is_source),
        Expr::AddrOf(a) | Expr::Deref(a) => expr_is_source(a),
        Expr::Add(a, b) | Expr::Sub(a, b) | Expr::And(a, b) | Expr::Or(a, b) | Expr::LShift(a, b)
        | Expr::RShift(a, b) | Expr::BinEq(a, b) | Expr::BinNEq(a, b) | Expr::LE(a, b)
        | Expr::GE(a, b) | Expr::GT(a, b) | Expr::LT(a, b) => expr_is_source(a) && expr_is_source(b),
        Expr::Str(_) | Expr::ArrayLit(_) => false,
    }
}

fn stmt_is_source(s: &Stmt) -> bool {
    match s {
        Stmt::Return(e) | Stmt::Expr(e) => expr_is_source(e),
        Stmt::Decl { init, .. } => expr_is_source(init),
        Stmt::Assign { target, value } => expr_is_source(target) && expr_is_source(value),
        Stmt::If { cond, body } | Stmt::While { cond, body } => {
            expr_is_source(cond) && body.iter().all(stmt_is_source)
        }
        Stmt::For { .. } => false,
    }
}

#[test]
fn parsed_programs_hold_only_source_constructs() {
    let p = parse_ok(
        "u32 f(u32 a) { if (a == 0) { return g(&a, *a); } while (a) { a = a - 1; } } u32 main() { u32* p = &x; *p = f(1,); return 0; }",
    );
    assert!(p.funcs.iter().all(|f| f.body.iter().all(stmt_is_source)));
}

#[test]
fn whitespace_between_tokens_does_not_matter() {
    let tight = "u32 main(){u32 x=0x1f;while(x>0){x=x-1;}return x;}";
    let loose = "  u32\tmain ( ) {\n  u32 x = 0x1f ;\r\n  while ( x > 0 ) { x = x - 1 ; }\n  return x ;\n}\n";
    assert_eq!(parse_program(tight), parse_program(loose));
    assert!(parse_program(tight).is_ok());
    assert_eq!(parse_program("u32 main() { return 1 + ; }"), parse_program("u32  main()  {return 1+;}"));
}
