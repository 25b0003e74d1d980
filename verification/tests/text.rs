use archic::ast::Expr;
use archic::text::{indent, push_debug_str, push_expr_debug, push_i64, push_u64};

fn bx(e: Expr) -> Box<Expr> {
    Box::new(e)
}

fn debug_of(e: &Expr) -> String {
    let mut out = String::from(">");
    push_expr_debug(&mut out, e);
    out
}

#[test]
fn decimal_numbers() {
    for n in [0u64, 7, 10, 61436, u64::MAX] {
        let mut out = String::from("n=");
        push_u64(&mut out, n);
        assert_eq!(out, format!("n={}", n));
    }
    for i in [0i64, -1, 42, -61436, i64::MIN, i64::MAX] {
        let mut out = String::new();
        push_i64(&mut out, i);
        assert_eq!(out, i.to_string());
    }
}

#[test]
fn debug_strings_match_std() {
    for s in ["x", "a\"b", "tab\there", "back\\slash", "é\n", ""] {
        let mut out = String::from("[");
        push_debug_str(&mut out, &s.to_string());
        assert_eq!(out, format!("[{:?}", s));
    }
}

#[test]
fn expression_debug_matches_derived_debug() {
    let exprs = vec![
        Expr::Int(-3),
        Expr::Var("x".to_string()),
        Expr::Call { name: "f".to_string(), args: vec![] },
        Expr::Call {
            name: "g".to_string(),
            args: vec![Expr::Int(1), Expr::Var("y".to_string()), Expr::AddrOf(bx(Expr::Var("z".to_string())))],
        },
        Expr::Deref(bx(Expr::Deref(bx(Expr::Var("p".to_string()))))),
        Expr::Add(bx(Expr::Int(1)), bx(Expr::Sub(bx(Expr::Int(2)), bx(Expr::Int(3))))),
        Expr::And(bx(Expr::Int(1)), bx(Expr::Or(bx(Expr::Int(2)), bx(Expr::Int(3))))),
        Expr::LShift(bx(Expr::Int(1)), bx(Expr::RShift(bx(Expr::Int(2)), bx(Expr::Int(3))))),
        Expr::BinEq(bx(Expr::Int(1)), bx(Expr::BinNEq(bx(Expr::Int(2)), bx(Expr::Int(3))))),
        Expr::LE(bx(Expr::GE(bx(Expr::Int(0)), bx(Expr::Int(1)))), bx(Expr::GT(bx(Expr::Int(2)), bx(Expr::LT(bx(Expr::Int(3)), bx(Expr::Int(4))))))),
        Expr::Str("he said \"hi\"\n".to_string()),
        Expr::ArrayLit(vec![]),
        Expr::ArrayLit(vec![Expr::Int(1), Expr::Str("s".to_string())]),
    ];
    for e in exprs.iter() {
        assert_eq!(debug_of(e), format!(">{:?}", e));
    }
}

#[test]
fn indent_follows_str_lines() {
    let cases = ["", "a", "a\n", "a\nb", "a\n\nb\n", "\n", "x\r\ny\r", "\r\n", "\r", "a\rb\n"];
    for s in cases {
        let mut expected = String::new();
        for l in s.lines() {
            expected.push_str("    ");
            expected.push_str(l);
            expected.push('\n');
        }
        assert_eq!(indent(s), expected, "{:?}", s);
    }
}

#[test]
fn indent_example() {
    assert_eq!(indent("; params handling\npop r0\n"), "    ; params handling\n    pop r0\n");
}
