use archic::ast::{BaseType, Expr, Program, Stmt, Type};
use archic::compile::{can_compile, codegen, compile_body, compile_expr, compile_stmt};
use archic::labels::{new_label, LabelCounter};
use archic::parser::parse_program;
use archic::vars::{declare_variables, VarTable};

const PROLOGUE: &str = "; init of stack
let r0 0x00fffffc
copy sp r0
; entrypoint
jump _start
_start:
    ; no args possible for now
    call main
    ; handling of exit codes
    pop r0
    skip 1 ifne r0 0
    jump green ; true
    jump red ; false

";

const EPILOGUE: &str = "

green:
    copy r3 0
    let r0 0x01000000
    let r1 0x0000FF00
gloop:
    xor r2 r2 r2
    add r2 r2 r3
    add r2 r2 r3
    add r2 r2 r3
    add r2 r2 r3
    store [r0 + r2] r1
    add r3 r3 1
    jump gloop

red:
    copy r3 0
    let r0 0x01000000
    let r1 0x000000FF
rloop:
    xor r2 r2 r2
    add r2 r2 r3
    add r2 r2 r3
    add r2 r2 r3
    add r2 r2 r3
    store [r0 + r2] r1
    add r3 r3 1
    jump rloop
";

fn var(s: &str) -> Expr {
    Expr::Var(s.to_string())
}

fn lit(i: i64) -> Expr {
    Expr::Int(i)
}

fn bx(e: Expr) -> Box<Expr> {
    Box::new(e)
}

fn parse(src: &str) -> Program {
    parse_program(src).unwrap()
}

fn table_of(p: &Program) -> VarTable {
    declare_variables(p).unwrap()
}

fn main_name() -> String {
    "main".to_string()
}

/// The code of one expression of `main`, with labels from `start`; and
/// the counter afterwards.
fn expr_code(table: &VarTable, e: &Expr, start: u64) -> (String, u64) {
    let mut out = String::new();
    let mut labels = LabelCounter { next: start };
    compile_expr(&mut out, e, &main_name(), table, &mut labels).unwrap();
    (out, labels.next)
}

fn stmt_code(table: &VarTable, s: &Stmt, start: u64) -> (String, u64) {
    let mut out = String::new();
    let mut labels = LabelCounter { next: start };
    compile_stmt(&mut out, s, &main_name(), table, &mut labels).unwrap();
    (out, labels.next)
}

fn empty_table() -> VarTable {
    VarTable::new()
}

#[test]
fn new_label_counts_up() {
    let mut c = LabelCounter::new();
    assert_eq!(new_label(&mut c), 0);
    assert_eq!(new_label(&mut c), 1);
    assert_eq!(new_label(&mut c), 2);
    assert_eq!(c.next, 3);
}

#[test]
fn new_label_wraps_around() {
    let mut c = LabelCounter { next: u64::MAX };
    assert_eq!(new_label(&mut c), u64::MAX);
    assert_eq!(c.next, 0);
}

#[test]
fn compile_int_literals() {
    let t = empty_table();
    assert_eq!(expr_code(&t, &lit(42), 0), ("let r0 42\npush r0\n".to_string(), 0));
    assert_eq!(expr_code(&t, &lit(-5), 0).0, "let r0 -5\npush r0\n");
    assert_eq!(expr_code(&t, &lit(i64::MIN), 0).0, "let r0 -9223372036854775808\npush r0\n");
    assert_eq!(expr_code(&t, &lit(i64::MAX), 0).0, "let r0 9223372036854775807\npush r0\n");
}

#[test]
fn compile_variables_and_addresses() {
    let p = parse("u32 main() { u32 x = 0; u32 y = 0; }");
    let t = table_of(&p);
    assert_eq!(expr_code(&t, &var("x"), 0).0, "copy r0 61436\nload r1 [r0]\npush r1\n");
    assert_eq!(expr_code(&t, &var("y"), 0).0, "copy r0 61440\nload r1 [r0]\npush r1\n");
    assert_eq!(expr_code(&t, &Expr::AddrOf(bx(var("y"))), 0).0, "push 61440\n");
    assert_eq!(
        expr_code(&t, &Expr::Deref(bx(var("x"))), 0).0,
        "copy r0 61436\nload r1 [r0]\npush r1\npop r0\nload r1 [r0]\npush r1\n"
    );
}

#[test]
fn compile_arithmetic() {
    let t = empty_table();
    let ops = [
        (Expr::Add(bx(lit(1)), bx(lit(2))), "add"),
        (Expr::Sub(bx(lit(1)), bx(lit(2))), "sub"),
        (Expr::And(bx(lit(1)), bx(lit(2))), "and"),
        (Expr::Or(bx(lit(1)), bx(lit(2))), "or"),
        (Expr::LShift(bx(lit(1)), bx(lit(2))), "lsl"),
        (Expr::RShift(bx(lit(1)), bx(lit(2))), "lsr"),
    ];
    for (e, op) in ops.iter() {
        let expected = format!(
            "let r0 1\npush r0\nlet r0 2\npush r0\npop r1\npop r0\n{} r0 r0 r1\npush r0\n",
            op
        );
        assert_eq!(expr_code(&t, e, 7), (expected, 7));
    }
}

#[test]
fn compile_comparisons_take_a_label() {
    let t = empty_table();
    let ops = [
        (Expr::BinEq(bx(lit(1)), bx(lit(2))), "eq"),
        (Expr::BinNEq(bx(lit(1)), bx(lit(2))), "ne"),
        (Expr::LE(bx(lit(1)), bx(lit(2))), "le"),
        (Expr::GE(bx(lit(1)), bx(lit(2))), "ge"),
        (Expr::GT(bx(lit(1)), bx(lit(2))), "gt"),
        (Expr::LT(bx(lit(1)), bx(lit(2))), "lt"),
    ];
    for (e, cond) in ops.iter() {
        let expected = format!(
            "let r0 1\npush r0\nlet r0 2\npush r0\npop r1\npop r0\nskip 1 if{} r0 r1\n\
             jump eq_5_false\njump eq_5_true\neq_5_true:\npush 1\njump eq_5_end\n\
             eq_5_false:\npush 0\njump eq_5_end\neq_5_end:\n",
            cond
        );
        assert_eq!(expr_code(&t, e, 5), (expected, 6));
    }
}

#[test]
fn compile_nested_comparisons_number_inner_first() {
    let t = empty_table();
    let e = Expr::BinEq(bx(Expr::LT(bx(lit(1)), bx(lit(2)))), bx(Expr::GT(bx(lit(3)), bx(lit(4)))));
    let (code, next) = expr_code(&t, &e, 0);
    assert_eq!(next, 3);
    let lt = code.find("skip 1 iflt r0 r1\njump eq_0_false").unwrap();
    let gt = code.find("skip 1 ifgt r0 r1\njump eq_1_false").unwrap();
    let eq = code.find("skip 1 ifeq r0 r1\njump eq_2_false").unwrap();
    assert!(lt < gt && gt < eq);
}

#[test]
fn compile_call_pushes_last_argument_first() {
    let t = empty_table();
    let e = Expr::Call { name: "f".to_string(), args: vec![lit(1), lit(2), lit(3)] };
    assert_eq!(
        expr_code(&t, &e, 0).0,
        "let r0 3\npush r0\nlet r0 2\npush r0\nlet r0 1\npush r0\ncall f\n"
    );
    let e = Expr::Call { name: "g".to_string(), args: vec![] };
    assert_eq!(expr_code(&t, &e, 0).0, "call g\n");
}

#[test]
fn compile_addr_of_deref_is_identity() {
    let p = parse("u32 main() { u32 x = 0; }");
    let t = table_of(&p);
    let inner = Expr::Add(bx(var("x")), bx(Expr::LE(bx(lit(1)), bx(var("x")))));
    let wrapped = Expr::AddrOf(bx(Expr::Deref(bx(Expr::Add(
        bx(var("x")),
        bx(Expr::LE(bx(lit(1)), bx(var("x")))),
    )))));
    assert_eq!(expr_code(&t, &wrapped, 9), expr_code(&t, &inner, 9));
}

#[test]
fn compile_return_statement() {
    let t = empty_table();
    assert_eq!(
        stmt_code(&t, &Stmt::Return(lit(0)), 0),
        ("; return Int(0)\nlet r0 0\npush r0\npop r0\npop r1\npush r0\npush r1\nret\n".to_string(), 0)
    );
}

#[test]
fn compile_declaration_statement() {
    let p = parse("u32 main() { u32 x = 1; }");
    let t = table_of(&p);
    let s = Stmt::Decl { ty: Type { base: BaseType::U32, ptr: 0 }, name: "x".to_string(), init: lit(1) };
    assert_eq!(
        stmt_code(&t, &s, 0).0,
        "; u32 x = Int(1)\nlet r0 1\npush r0\ncopy r0 61436\npop r1 ; the stack contains the value of x\nstore [r0] r1\n"
    );
}

#[test]
fn compile_assignment_statements() {
    let p = parse("u32 main() { u32 x = 1; u32* p = &x; }");
    let t = table_of(&p);
    let s = Stmt::Assign { target: var("x"), value: lit(2) };
    assert_eq!(
        stmt_code(&t, &s, 0).0,
        "; Var(\"x\") = Int(2)\nlet r0 2\npush r0\npop r1 ; the stack contains the value of Var(\"x\")\ncopy r0 61436\nstore [r0] r1\n"
    );
    let s = Stmt::Assign { target: Expr::Deref(bx(Expr::Deref(bx(var("p"))))), value: lit(3) };
    assert_eq!(
        stmt_code(&t, &s, 0).0,
        "; Deref(Deref(Var(\"p\"))) = Int(3)\nlet r0 3\npush r0\npop r1 ; the stack contains the value of Deref(Deref(Var(\"p\")))\ncopy r0 61440\nload r0 [r0]\nload r0 [r0]\nstore [r0] r1\n"
    );
}

#[test]
fn compile_expression_statement() {
    let t = empty_table();
    let s = Stmt::Expr(Expr::Call { name: "f".to_string(), args: vec![lit(4)] });
    assert_eq!(
        stmt_code(&t, &s, 0).0,
        "; raw expr (Call { name: \"f\", args: [Int(4)] })\nlet r0 4\npush r0\ncall f\npop r0 ; pop to not grow the stack\n"
    );
}

#[test]
fn compile_if_statement() {
    let t = empty_table();
    let s = Stmt::If {
        cond: Expr::BinEq(bx(lit(1)), bx(lit(1))),
        body: vec![Stmt::Return(lit(2))],
    };
    let (code, next) = stmt_code(&t, &s, 0);
    assert_eq!(next, 2);
    assert_eq!(
        code,
        "; if (BinEq(Int(1), Int(1)))\n\
         let r0 1\npush r0\nlet r0 1\npush r0\npop r1\npop r0\n\
         skip 1 ifeq r0 r1\njump eq_0_false\njump eq_0_true\neq_0_true:\npush 1\njump eq_0_end\n\
         eq_0_false:\npush 0\njump eq_0_end\neq_0_end:\n\
         pop r0\nskip 1 ifeq r0 0\njump if_1_true\njump if_1_false\nif_1_true:\n\
         ; return Int(2)\nlet r0 2\npush r0\npop r0\npop r1\npush r0\npush r1\nret\n\
         jump if_1_end\nif_1_false:\njump if_1_end\nif_1_end:\n"
    );
}

#[test]
fn compile_while_statement() {
    let t = empty_table();
    let s = Stmt::While {
        cond: Expr::LT(bx(lit(1)), bx(lit(2))),
        body: vec![Stmt::Expr(lit(3))],
    };
    let (code, next) = stmt_code(&t, &s, 10);
    assert_eq!(next, 12);
    assert_eq!(
        code,
        "; while (LT(Int(1), Int(2)))\nwhile_10_check:\n\
         let r0 1\npush r0\nlet r0 2\npush r0\npop r1\npop r0\n\
         skip 1 iflt r0 r1\njump eq_11_false\njump eq_11_true\neq_11_true:\npush 1\njump eq_11_end\n\
         eq_11_false:\npush 0\njump eq_11_end\neq_11_end:\n\
         pop r0\nskip 1 ifeq r0 0\njump while_10_true\njump while_10_end\nwhile_10_true:\n\
         ; raw expr (Int(3))\nlet r0 3\npush r0\npop r0 ; pop to not grow the stack\n\
         jump while_10_check\nwhile_10_end:\n"
    );
}

#[test]
fn compile_body_concatenates_statements() {
    let t = empty_table();
    let body = vec![Stmt::Expr(lit(1)), Stmt::Return(lit(2))];
    let mut out = String::new();
    let mut labels = LabelCounter::new();
    compile_body(&mut out, &body, &main_name(), &t, &mut labels).unwrap();
    let (a, _) = stmt_code(&t, &body[0], 0);
    let (b, _) = stmt_code(&t, &body[1], 0);
    assert_eq!(out, a + &b);
}

#[test]
fn codegen_minimal_program() {
    let p = parse("u32 main() { return 0; }");
    assert!(can_compile(&p));
    let mut labels = LabelCounter::new();
    let output = codegen(p, &mut labels).unwrap();
    let expected = String::new()
        + PROLOGUE
        + "main:\n    ; params handling\n    ; return Int(0)\n    let r0 0\n    push r0\n    pop r0\n    pop r1\n    push r0\n    push r1\n    ret\n    ; Oh no we got out of the scope !\n    ; Oh no we are in trouble\n    jump red\n; end of func main\n\n"
        + EPILOGUE;
    assert_eq!(output, expected);
    assert_eq!(labels.next, 0);
}

#[test]
fn codegen_parameters_and_calls() {
    let p = parse("u32 add(u32 a, u32 b) { return a + b; } void main() { add(1, 2); }");
    assert!(can_compile(&p));
    let mut labels = LabelCounter::new();
    let output = codegen(p, &mut labels).unwrap();
    let add = "add:\n    ; params handling\n    ; set of a\n    pop r0\n    pop r1\n    push r0\n    copy r0 61436\n    store [r0] r1\n    ; set of b\n    pop r0\n    pop r1\n    push r0\n    copy r0 61440\n    store [r0] r1\n    ; return Add(Var(\"a\"), Var(\"b\"))\n    copy r0 61436\n    load r1 [r0]\n    push r1\n    copy r0 61440\n    load r1 [r0]\n    push r1\n    pop r1\n    pop r0\n    add r0 r0 r1\n    push r0\n    pop r0\n    pop r1\n    push r0\n    push r1\n    ret\n    ; Oh no we got out of the scope !\n    ; Oh no we are in trouble\n    jump red\n; end of func add\n\n";
    let main = "main:\n    ; params handling\n    ; raw expr (Call { name: \"add\", args: [Int(1), Int(2)] })\n    let r0 2\n    push r0\n    let r0 1\n    push r0\n    call add\n    pop r0 ; pop to not grow the stack\n    ; Oh no we got out of the scope !\n    ; Eh its fine we are in a void func\n    ; we push a NULL\n    pop r0 ; we push a NULL\n    push 0\n    push r0\n    ret\n; end of func main\n\n";
    let expected = String::new() + PROLOGUE + add + main + EPILOGUE;
    assert_eq!(output, expected);
}

#[test]
fn codegen_labels_are_fresh_across_functions() {
    let p = parse(
        "u32 f(u32 x) { if (x == 1) { return 2; } return 3; } u32 main() { while (f(1) < 3) { } return 1; }",
    );
    let mut labels = LabelCounter::new();
    let output = codegen(p, &mut labels).unwrap();
    assert_eq!(labels.next, 4);
    for l in ["eq_0_end:", "if_1_end:", "while_2_check:", "eq_3_end:"] {
        assert_eq!(output.matches(l).count(), 1, "{}", l);
    }
}

#[test]
fn codegen_void_variable_is_an_error() {
    let p = parse("u32 main() { void v = 0; }");
    assert!(can_compile(&p));
    let mut labels = LabelCounter { next: 3 };
    assert_eq!(
        codegen(p, &mut labels),
        Err("Invalid declaration: variable `v` cannot have type `void`".to_string())
    );
    assert_eq!(labels.next, 3);
    let p = parse("void f(void* p) { } u32 main() { return 0; }");
    assert_eq!(
        codegen(p, &mut LabelCounter::new()),
        Err("Invalid declaration: variable `p` cannot have type `void`".to_string())
    );
}

#[test]
fn codegen_duplicate_variable_is_an_error() {
    let p = parse("u32 main(u32 x) { u32 x = 1; }");
    assert_eq!(
        codegen(p, &mut LabelCounter::new()),
        Err("Invalid declaration: variable `x` already exists".to_string())
    );
}

#[test]
fn codegen_first_error_wins() {
    let p = parse("u32 f() { u32 a = 0; u32 a = 1; } u32 main() { void b = 0; }");
    match declare_variables(&p) {
        Err(e) => assert_eq!(e, "Invalid declaration: variable `a` already exists"),
        Ok(_) => panic!("expected an error"),
    }
}

#[test]
fn declare_variables_lays_out_in_order() {
    let p = parse("u32 f(u32 a, u32 b) { u32 c = 0; if (1) { u32 d = 0; } } u32 main(u32 a) { u32 z = 0; }");
    let t = table_of(&p);
    let names: Vec<(String, String, u32)> =
        t.entries.iter().map(|e| (e.func.clone(), e.var.clone(), e.addr)).collect();
    assert_eq!(
        names,
        vec![
            ("f".to_string(), "a".to_string(), 0xEFFC),
            ("f".to_string(), "b".to_string(), 0xF000),
            ("f".to_string(), "c".to_string(), 0xF004),
            ("main".to_string(), "a".to_string(), 0xF008),
            ("main".to_string(), "z".to_string(), 0xF00C),
        ]
    );
    assert_eq!(t.get(&"main".to_string(), &"a".to_string()), Some(0xF008));
    assert_eq!(t.get(&"f".to_string(), &"a".to_string()), Some(0xEFFC));
    assert_eq!(t.get(&"f".to_string(), &"d".to_string()), None);
    assert_eq!(t.get(&"g".to_string(), &"a".to_string()), None);
}

#[test]
fn same_name_in_two_functions_is_fine() {
    let p = parse("u32 f() { u32 x = 0; } u32 main() { u32 x = 1; return x; }");
    assert!(declare_variables(&p).is_ok());
}

#[test]
fn can_compile_rejects_undeclared_variables() {
    assert!(!can_compile(&parse("u32 main() { return y; }")));
    assert!(!can_compile(&parse("u32 main() { if (1) { u32 x = 0; } }")));
    assert!(!can_compile(&parse("u32 main() { *f() = 1; }")));
    assert!(!can_compile(&parse("u32 main() { return &f(); }")));
    assert!(can_compile(&parse("u32 main() { u32 x = 0; if (1) { x = 2; } return &x; }")));
}

#[test]
fn can_compile_rejects_unhandled_expressions() {
    let mk = |e: Expr| Program {
        funcs: vec![archic::ast::Function {
            return_ty: Type { base: BaseType::U32, ptr: 0 },
            name: "main".to_string(),
            params: vec![],
            body: vec![Stmt::Return(e)],
        }],
    };
    assert!(!can_compile(&mk(Expr::Str("s".to_string()))));
    assert!(!can_compile(&mk(Expr::ArrayLit(vec![lit(1)]))));
    assert!(can_compile(&mk(lit(1))));
}

#[test]
fn can_compile_rejects_for_loops() {
    let p = Program {
        funcs: vec![archic::ast::Function {
            return_ty: Type { base: BaseType::U32, ptr: 0 },
            name: "main".to_string(),
            params: vec![],
            body: vec![Stmt::For { init: None, cond: None, step: None, body: vec![] }],
        }],
    };
    assert!(!can_compile(&p));
}

#[test]
fn codegen_second_run_shifts_every_label() {
    let src = "u32 main(u32 x) { if (x == 1) { return 2; } return 3; }";
    let mut labels = LabelCounter::new();
    let first = codegen(parse(src), &mut labels).unwrap();
    assert_eq!(labels.next, 2);
    let second = codegen(parse(src), &mut labels).unwrap();
    assert_eq!(labels.next, 4);
    let shifted = first.replace("eq_0_", "eq_2_").replace("if_1_", "if_3_");
    assert_ne!(first, second);
    assert_eq!(second, shifted);
}

#[test]
fn compiled_code_is_whole_lines() {
    let p = parse("u32 main() { u32 x = 0; while (x < 3) { x = x + 1; } return f(x, &x); }");
    let t = table_of(&p);
    for s in p.funcs[0].body.iter() {
        let (code, _) = stmt_code(&t, s, 0);
        assert!(code.ends_with('\n'));
    }
    let (code, _) = expr_code(&t, &Expr::Call { name: "g".to_string(), args: vec![] }, 0);
    assert!(code.ends_with('\n'));
}
