//! Code generation: from the syntax tree to the text of the assembly.
//!
//! The generated code keeps its values on the stack. An expression leaves
//! its value on top of the stack; it uses only registers `r0` and `r1`.

use vstd::prelude::*;
use vstd::string::StringExecFns;
use crate::ast::{BaseType, Expr, ExprV, FunctionV, Program, ProgramV, Stmt, StmtV, Type, exprs_view, stmts_view, lemma_exprs_view_index, lemma_stmts_view_index};
use crate::labels::{LabelCounter, new_label, label_after};
use crate::text::{nat_text, int_text, push_u64, push_i64, expr_debug, push_expr_debug, indent, indent_lines};
use crate::vars::{EntryV, VarTable, lookup, layout, program_decls, param_decls, body_decls, function_decls, declare_variables, MAX_DECLS, lemma_declare_all_ok, lemma_param_decl_in_program};

verus! {

/// The `Result` of std's formatting machinery.
#[verifier::external_type_specification]
#[verifier::external_body]
pub struct ExFmtError(std::fmt::Error);

/// The address of variable `v` of function `f` in table `t`.
pub open spec fn addr_of(t: Seq<EntryV>, f: Seq<char>, v: Seq<char>) -> u32 {
    match lookup(t, f, v) {
        Some(a) => a,
        None => 0,
    }
}

/// Whether variable `v` of function `f` is in table `t`.
pub open spec fn declared(t: Seq<EntryV>, f: Seq<char>, v: Seq<char>) -> bool {
    lookup(t, f, v) is Some
}

/// The expressions that the code generator handles in function `f`: every
/// variable is declared, `&` applies only to a variable or to a `*`
/// expression, and there is no string or array literal.
pub open spec fn expr_ok(e: ExprV, f: Seq<char>, t: Seq<EntryV>) -> bool
    decreases e,
{
    match e {
        ExprV::Int(_) => true,
        ExprV::Var(n) => declared(t, f, n),
        ExprV::Call { name, args } => args_ok(args, f, t),
        ExprV::AddrOf(a) => match *a {
            ExprV::Var(n) => declared(t, f, n),
            ExprV::Deref(x) => expr_ok(*x, f, t),
            _ => false,
        },
        ExprV::Deref(a) => expr_ok(*a, f, t),
        ExprV::Add(a, b) => expr_ok(*a, f, t) && expr_ok(*b, f, t),
        ExprV::Sub(a, b) => expr_ok(*a, f, t) && expr_ok(*b, f, t),
        ExprV::And(a, b) => expr_ok(*a, f, t) && expr_ok(*b, f, t),
        ExprV::Or(a, b) => expr_ok(*a, f, t) && expr_ok(*b, f, t),
        ExprV::LShift(a, b) => expr_ok(*a, f, t) && expr_ok(*b, f, t),
        ExprV::RShift(a, b) => expr_ok(*a, f, t) && expr_ok(*b, f, t),
        ExprV::BinEq(a, b) => expr_ok(*a, f, t) && expr_ok(*b, f, t),
        ExprV::BinNEq(a, b) => expr_ok(*a, f, t) && expr_ok(*b, f, t),
        ExprV::LE(a, b) => expr_ok(*a, f, t) && expr_ok(*b, f, t),
        ExprV::GE(a, b) => expr_ok(*a, f, t) && expr_ok(*b, f, t),
        ExprV::GT(a, b) => expr_ok(*a, f, t) && expr_ok(*b, f, t),
        ExprV::LT(a, b) => expr_ok(*a, f, t) && expr_ok(*b, f, t),
        ExprV::Str(_) => false,
        ExprV::ArrayLit(_) => false,
    }
}

/// Every expression of `s` is handled by the code generator.
pub open spec fn args_ok(s: Seq<ExprV>, f: Seq<char>, t: Seq<EntryV>) -> bool
    decreases s,
{
    if s.len() == 0 {
        true
    } else {
        expr_ok(s.last(), f, t) && args_ok(s.drop_last(), f, t)
    }
}

/// Pops the two operands into `r1` (right) and `r0` (left).
pub open spec fn pop_operands() -> Seq<char> {
    "pop r1\npop r0\n"@
}

/// Applies `op` to `r0` and `r1` and pushes the result.
pub open spec fn arith_tail(op: Seq<char>) -> Seq<char> {
    op + " r0 r0 r1\npush r0\n"@
}

/// Pushes 1 when `r0 cond r1` holds and 0 otherwise, with jumps to labels
/// numbered `l`.
pub open spec fn test_tail(cond: Seq<char>, l: u64) -> Seq<char> {
    let n = nat_text(l as nat);
    "skip 1 if"@ + cond + " r0 r1\njump eq_"@ + n + "_false\njump eq_"@ + n + "_true\neq_"@ + n
        + "_true:\npush 1\njump eq_"@ + n + "_end\neq_"@ + n + "_false:\npush 0\njump eq_"@ + n
        + "_end\neq_"@ + n + "_end:\n"@
}

/// The code of a binary expression `e` whose operation is `op`, starting
/// the labels at `l`: both operands, then the operation.
pub open spec fn arith_code(op: Seq<char>, e: ExprV, f: Seq<char>, t: Seq<EntryV>, l: u64) -> (
    Seq<char>,
    u64,
)
    decreases e, 0nat,
{
    match e {
        ExprV::Add(a, b) | ExprV::Sub(a, b) | ExprV::And(a, b) | ExprV::Or(a, b)
        | ExprV::LShift(a, b) | ExprV::RShift(a, b) | ExprV::BinEq(a, b) | ExprV::BinNEq(a, b)
        | ExprV::LE(a, b) | ExprV::GE(a, b) | ExprV::GT(a, b) | ExprV::LT(a, b) => {
            let (ca, la) = expr_code(*a, f, t, l);
            let (cb, lb) = expr_code(*b, f, t, la);
            (ca + cb + pop_operands() + arith_tail(op), lb)
        },
        _ => (Seq::empty(), l),
    }
}

/// The code of a comparison `e` whose test is `cond`: both operands, then
/// a test that takes the next label.
pub open spec fn test_code(cond: Seq<char>, e: ExprV, f: Seq<char>, t: Seq<EntryV>, l: u64) -> (
    Seq<char>,
    u64,
)
    decreases e, 0nat,
{
    match e {
        ExprV::Add(a, b) | ExprV::Sub(a, b) | ExprV::And(a, b) | ExprV::Or(a, b)
        | ExprV::LShift(a, b) | ExprV::RShift(a, b) | ExprV::BinEq(a, b) | ExprV::BinNEq(a, b)
        | ExprV::LE(a, b) | ExprV::GE(a, b) | ExprV::GT(a, b) | ExprV::LT(a, b) => {
            let (ca, la) = expr_code(*a, f, t, l);
            let (cb, lb) = expr_code(*b, f, t, la);
            (ca + cb + pop_operands() + test_tail(cond, lb), label_after(lb))
        },
        _ => (Seq::empty(), l),
    }
}

/// The code of expression `e` in function `f`, with variables at the
/// addresses of table `t` and labels numbered from `l`; and the number of
/// the next free label after it. The code pushes the value of `e`.
pub open spec fn expr_code(e: ExprV, f: Seq<char>, t: Seq<EntryV>, l: u64) -> (Seq<char>, u64)
    decreases e, 1nat,
{
    match e {
        ExprV::Int(i) => ("let r0 "@ + int_text(i as int) + "\npush r0\n"@, l),
        ExprV::Var(n) => (
            "copy r0 "@ + nat_text(addr_of(t, f, n) as nat) + "\nload r1 [r0]\npush r1\n"@,
            l,
        ),
        ExprV::Call { name, args } => {
            let (ca, la) = args_code(args, f, t, l);
            (ca + "call "@ + name + "\n"@, la)
        },
        ExprV::AddrOf(a) => match *a {
            ExprV::Var(n) => ("push "@ + nat_text(addr_of(t, f, n) as nat) + "\n"@, l),
            ExprV::Deref(x) => expr_code(*x, f, t, l),
            _ => (Seq::empty(), l),
        },
        ExprV::Deref(a) => {
            let (ca, la) = expr_code(*a, f, t, l);
            (ca + "pop r0\nload r1 [r0]\npush r1\n"@, la)
        },
        ExprV::Add(..) => arith_code("add"@, e, f, t, l),
        ExprV::Sub(..) => arith_code("sub"@, e, f, t, l),
        ExprV::And(..) => arith_code("and"@, e, f, t, l),
        ExprV::Or(..) => arith_code("or"@, e, f, t, l),
        ExprV::LShift(..) => arith_code("lsl"@, e, f, t, l),
        ExprV::RShift(..) => arith_code("lsr"@, e, f, t, l),
        ExprV::BinEq(..) => test_code("eq"@, e, f, t, l),
        ExprV::BinNEq(..) => test_code("ne"@, e, f, t, l),
        ExprV::LE(..) => test_code("le"@, e, f, t, l),
        ExprV::GE(..) => test_code("ge"@, e, f, t, l),
        ExprV::GT(..) => test_code("gt"@, e, f, t, l),
        ExprV::LT(..) => test_code("lt"@, e, f, t, l),
        ExprV::Str(_) => (Seq::empty(), l),
        ExprV::ArrayLit(_) => (Seq::empty(), l),
    }
}

/// The code that pushes the arguments of a call, the last one first.
pub open spec fn args_code(s: Seq<ExprV>, f: Seq<char>, t: Seq<EntryV>, l: u64) -> (Seq<char>, u64)
    decreases s,
{
    if s.len() == 0 {
        (Seq::empty(), l)
    } else {
        let (c1, l1) = expr_code(s.last(), f, t, l);
        let (c2, l2) = args_code(s.drop_last(), f, t, l1);
        (c1 + c2, l2)
    }
}

/// The instruction of an arithmetic expression.
fn arith_op(e: &Expr) -> (op: &'static str)
    ensures
        match e@ {
            ExprV::Add(..) => op@ == "add"@,
            ExprV::Sub(..) => op@ == "sub"@,
            ExprV::And(..) => op@ == "and"@,
            ExprV::Or(..) => op@ == "or"@,
            ExprV::LShift(..) => op@ == "lsl"@,
            ExprV::RShift(..) => op@ == "lsr"@,
            _ => true,
        },
{
    match e {
        Expr::Add(..) => "add",
        Expr::Sub(..) => "sub",
        Expr::And(..) => "and",
        Expr::Or(..) => "or",
        Expr::LShift(..) => "lsl",
        Expr::RShift(..) => "lsr",
        _ => "",
    }
}

/// The condition of the `skip` instruction of a comparison.
fn test_cond(e: &Expr) -> (cond: &'static str)
    ensures
        match e@ {
            ExprV::BinEq(..) => cond@ == "eq"@,
            ExprV::BinNEq(..) => cond@ == "ne"@,
            ExprV::LE(..) => cond@ == "le"@,
            ExprV::GE(..) => cond@ == "ge"@,
            ExprV::GT(..) => cond@ == "gt"@,
            ExprV::LT(..) => cond@ == "lt"@,
            _ => true,
        },
{
    match e {
        Expr::BinEq(..) => "eq",
        Expr::BinNEq(..) => "ne",
        Expr::LE(..) => "le",
        Expr::GE(..) => "ge",
        Expr::GT(..) => "gt",
        Expr::LT(..) => "lt",
        _ => "",
    }
}

/// Writes the test that ends the code of a comparison (see [`test_tail`]).
fn push_test_tail(out: &mut String, cond: &str, l: u64)
    ensures
        final(out)@ == old(out)@ + test_tail(cond@, l),
{
    out.append("skip 1 if");
    out.append(cond);
    out.append(" r0 r1\njump eq_");
    push_u64(out, l);
    out.append("_false\njump eq_");
    push_u64(out, l);
    out.append("_true\neq_");
    push_u64(out, l);
    out.append("_true:\npush 1\njump eq_");
    push_u64(out, l);
    out.append("_end\neq_");
    push_u64(out, l);
    out.append("_false:\npush 0\njump eq_");
    push_u64(out, l);
    out.append("_end\neq_");
    push_u64(out, l);
    out.append("_end:\n");
    assert(final(out)@ =~= old(out)@ + test_tail(cond@, l));
}

/// Writes the code that pushes the arguments of a call, the last first.
fn compile_args(
    out: &mut String,
    args: &Vec<Expr>,
    fun_name: &String,
    variables_table: &VarTable,
    labels: &mut LabelCounter,
) -> (r: std::fmt::Result)
    requires
        args_ok(exprs_view(args@), fun_name@, variables_table@),
    ensures
        r is Ok,
        final(out)@ == old(out)@ + args_code(
            exprs_view(args@),
            fun_name@,
            variables_table@,
            old(labels).next,
        ).0,
        final(labels).next == args_code(
            exprs_view(args@),
            fun_name@,
            variables_table@,
            old(labels).next,
        ).1,
    decreases args@, 0nat,
{
    let ghost l0 = labels.next;
    let ghost vs = exprs_view(args@);
    proof {
        lemma_exprs_view_index(args@);
        assert(vs.take(vs.len() as int) =~= vs);
    }
    let mut i: usize = args.len();
    while i > 0
        invariant
            vs == exprs_view(args@),
            vs.len() == args@.len(),
            forall|k: int| 0 <= k < args@.len() ==> #[trigger] vs[k] == args@[k]@,
            0 <= i <= args@.len(),
            args_ok(vs.take(i as int), fun_name@, variables_table@),
            old(out)@ + args_code(vs, fun_name@, variables_table@, l0).0 == out@ + args_code(
                vs.take(i as int),
                fun_name@,
                variables_table@,
                labels.next,
            ).0,
            args_code(vs, fun_name@, variables_table@, l0).1 == args_code(
                vs.take(i as int),
                fun_name@,
                variables_table@,
                labels.next,
            ).1,
        decreases i,
    {
        let ghost li = labels.next;
        let ghost pre = vs.take(i as int);
        proof {
            assert(pre.last() == vs[i - 1]);
            assert(pre.drop_last() =~= vs.take(i - 1));
        }
        compile_expr(out, &args[i - 1], fun_name, variables_table, labels)?;
        i = i - 1;
        proof {
            let c2 = args_code(vs.take(i as int), fun_name@, variables_table@, labels.next).0;
            assert(old(out)@ + args_code(vs, fun_name@, variables_table@, l0).0 =~= out@ + c2);
        }
    }
    assert(vs.take(0) =~= Seq::<ExprV>::empty());
    assert(final(out)@ =~= old(out)@ + args_code(vs, fun_name@, variables_table@, l0).0);
    Ok(())
}

/// Writes the code of `expr`, which pushes its value, for function
/// `fun_name` with the variables of `variables_table`; its comparisons
/// take fresh labels from `labels`.
#[verifier::rlimit(40)]
pub fn compile_expr(
    out: &mut String,
    expr: &Expr,
    fun_name: &String,
    variables_table: &VarTable,
    labels: &mut LabelCounter,
) -> (r: std::fmt::Result)
    requires
        expr_ok(expr@, fun_name@, variables_table@),
    ensures
        r is Ok,
        final(out)@ == old(out)@ + expr_code(
            expr@,
            fun_name@,
            variables_table@,
            old(labels).next,
        ).0,
        final(labels).next == expr_code(expr@, fun_name@, variables_table@, old(labels).next).1,
    decreases expr, 1nat,
{
    let ghost l0 = labels.next;
    match expr {
        Expr::Int(i) => {
            out.append("let r0 ");
            push_i64(out, *i);
            out.append("\npush r0\n");
        },
        Expr::Var(name) => {
            let addr = variables_table.get(fun_name, name).unwrap();
            out.append("copy r0 ");
            push_u64(out, addr as u64);
            out.append("\nload r1 [r0]\npush r1\n");
        },
        Expr::Add(a, b) | Expr::Sub(a, b) | Expr::And(a, b) | Expr::Or(a, b)
        | Expr::LShift(a, b) | Expr::RShift(a, b) => {
            let op = arith_op(expr);
            assert(expr_code(expr@, fun_name@, variables_table@, l0) == arith_code(
                op@,
                expr@,
                fun_name@,
                variables_table@,
                l0,
            ));
            compile_expr(out, a, fun_name, variables_table, labels)?;
            compile_expr(out, b, fun_name, variables_table, labels)?;
            out.append("pop r1\npop r0\n");
            out.append(op);
            out.append(" r0 r0 r1\npush r0\n");
            assert(final(out)@ =~= old(out)@ + expr_code(expr@, fun_name@, variables_table@, l0).0);
        },
        Expr::BinEq(a, b) | Expr::BinNEq(a, b) | Expr::LE(a, b) | Expr::GE(a, b)
        | Expr::GT(a, b) | Expr::LT(a, b) => {
            let cond = test_cond(expr);
            assert(expr_code(expr@, fun_name@, variables_table@, l0) == test_code(
                cond@,
                expr@,
                fun_name@,
                variables_table@,
                l0,
            ));
            compile_expr(out, a, fun_name, variables_table, labels)?;
            compile_expr(out, b, fun_name, variables_table, labels)?;
            out.append("pop r1\npop r0\n");
            let label = new_label(labels);
            push_test_tail(out, cond, label);
            assert(final(out)@ =~= old(out)@ + expr_code(expr@, fun_name@, variables_table@, l0).0);
        },
        Expr::Call { name, args } => {
            compile_args(out, args, fun_name, variables_table, labels)?;
            out.append("call ");
            out.append(name.as_str());
            out.append("\n");
        },
        Expr::AddrOf(a) => {
            match &**a {
                Expr::Var(name) => {
                    assert((**a)@ == ExprV::Var(name@));
                    let addr = variables_table.get(fun_name, name).unwrap();
                    out.append("push ");
                    push_u64(out, addr as u64);
                    out.append("\n");
                },
                Expr::Deref(x) => {
                    assert((**a)@ == ExprV::Deref(Box::new((**x)@)));
                    compile_expr(out, x, fun_name, variables_table, labels)?;
                },
                _ => {},
            }
        },
        Expr::Deref(a) => {
            compile_expr(out, a, fun_name, variables_table, labels)?;
            out.append("pop r0\nload r1 [r0]\npush r1\n");
        },
        Expr::Str(_) => {},
        Expr::ArrayLit(_) => {},
    }
    assert(final(out)@ =~= old(out)@ + expr_code(expr@, fun_name@, variables_table@, l0).0);
    Ok(())
}

/// The targets of an assignment that the code generator handles: a
/// declared variable, or `*` applied to such a target.
pub open spec fn lvalue_ok(e: ExprV, f: Seq<char>, t: Seq<EntryV>) -> bool
    decreases e,
{
    match e {
        ExprV::Var(n) => declared(t, f, n),
        ExprV::Deref(x) => lvalue_ok(*x, f, t),
        _ => false,
    }
}

/// The code that puts the address of an assignment target in `r0`.
pub open spec fn lvalue_code(e: ExprV, f: Seq<char>, t: Seq<EntryV>) -> Seq<char>
    decreases e,
{
    match e {
        ExprV::Var(n) => "copy r0 "@ + nat_text(addr_of(t, f, n) as nat) + "\n"@,
        ExprV::Deref(x) => lvalue_code(*x, f, t) + "load r0 [r0]\n"@,
        _ => Seq::empty(),
    }
}

/// The statements that the code generator handles: their expressions are
/// handled, a declaration names a declared variable whose type is not
/// plain `void`, an assignment has a handled target, and there is no
/// `for` loop.
pub open spec fn stmt_ok(s: StmtV, f: Seq<char>, t: Seq<EntryV>) -> bool
    decreases s,
{
    match s {
        StmtV::Return(e) => expr_ok(e, f, t),
        StmtV::Decl { ty, name, init } => !(ty.base == BaseType::Void && ty.ptr == 0) && expr_ok(
            init,
            f,
            t,
        ) && declared(t, f, name),
        StmtV::Assign { target, value } => expr_ok(value, f, t) && lvalue_ok(target, f, t),
        StmtV::If { cond, body } => expr_ok(cond, f, t) && stmts_ok(body, f, t),
        StmtV::While { cond, body } => expr_ok(cond, f, t) && stmts_ok(body, f, t),
        StmtV::For { .. } => false,
        StmtV::Expr(e) => expr_ok(e, f, t),
    }
}

/// Every statement of `ss` is handled by the code generator.
pub open spec fn stmts_ok(ss: Seq<StmtV>, f: Seq<char>, t: Seq<EntryV>) -> bool
    decreases ss,
{
    if ss.len() == 0 {
        true
    } else {
        stmt_ok(ss[0], f, t) && stmts_ok(ss.subrange(1, ss.len() as int), f, t)
    }
}

/// The code of statement `s` in function `f`, with labels from `l`, and
/// the next free label after it. Each statement starts with a comment
/// that shows it.
pub open spec fn stmt_code(s: StmtV, f: Seq<char>, t: Seq<EntryV>, l: u64) -> (Seq<char>, u64)
    decreases s,
{
    match s {
        StmtV::Return(e) => {
            let (c, l1) = expr_code(e, f, t, l);
            (
                "; return "@ + expr_debug(e) + "\n"@ + c
                    + "pop r0\npop r1\npush r0\npush r1\nret\n"@,
                l1,
            )
        },
        StmtV::Decl { ty, name, init } => {
            let (c, l1) = expr_code(init, f, t, l);
            (
                "; u32 "@ + name + " = "@ + expr_debug(init) + "\n"@ + c + "copy r0 "@ + nat_text(
                    addr_of(t, f, name) as nat,
                ) + "\npop r1 ; the stack contains the value of "@ + name + "\nstore [r0] r1\n"@,
                l1,
            )
        },
        StmtV::Assign { target, value } => {
            let (c, l1) = expr_code(value, f, t, l);
            (
                "; "@ + expr_debug(target) + " = "@ + expr_debug(value) + "\n"@ + c
                    + "pop r1 ; the stack contains the value of "@ + expr_debug(target) + "\n"@
                    + lvalue_code(target, f, t) + "store [r0] r1\n"@,
                l1,
            )
        },
        StmtV::If { cond, body } => {
            let (c, l1) = expr_code(cond, f, t, l);
            let n = nat_text(l1 as nat);
            let (cb, l2) = stmts_code(body, f, t, label_after(l1));
            (
                "; if ("@ + expr_debug(cond) + ")\n"@ + c + "pop r0\nskip 1 ifeq r0 0\njump if_"@ + n
                    + "_true\njump if_"@ + n + "_false\nif_"@ + n + "_true:\n"@ + cb + "jump if_"@
                    + n + "_end\nif_"@ + n + "_false:\njump if_"@ + n + "_end\nif_"@ + n
                    + "_end:\n"@,
                l2,
            )
        },
        StmtV::While { cond, body } => {
            let n = nat_text(l as nat);
            let (c, l1) = expr_code(cond, f, t, label_after(l));
            let (cb, l2) = stmts_code(body, f, t, l1);
            (
                "; while ("@ + expr_debug(cond) + ")\nwhile_"@ + n + "_check:\n"@ + c
                    + "pop r0\nskip 1 ifeq r0 0\njump while_"@ + n + "_true\njump while_"@ + n
                    + "_end\nwhile_"@ + n + "_true:\n"@ + cb + "jump while_"@ + n
                    + "_check\nwhile_"@ + n + "_end:\n"@,
                l2,
            )
        },
        StmtV::For { .. } => (Seq::empty(), l),
        StmtV::Expr(e) => {
            let (c, l1) = expr_code(e, f, t, l);
            (
                "; raw expr ("@ + expr_debug(e) + ")\n"@ + c
                    + "pop r0 ; pop to not grow the stack\n"@,
                l1,
            )
        },
    }
}

/// The code of the statements `ss`, one after the other.
pub open spec fn stmts_code(ss: Seq<StmtV>, f: Seq<char>, t: Seq<EntryV>, l: u64) -> (
    Seq<char>,
    u64,
)
    decreases ss,
{
    if ss.len() == 0 {
        (Seq::empty(), l)
    } else {
        let (c1, l1) = stmt_code(ss[0], f, t, l);
        let (c2, l2) = stmts_code(ss.subrange(1, ss.len() as int), f, t, l1);
        (c1 + c2, l2)
    }
}

/// Writes the code that puts the address of `target` in `r0`.
fn compile_lvalue(out: &mut String, target: &Expr, fun_name: &String, variables_table: &VarTable)
    requires
        lvalue_ok(target@, fun_name@, variables_table@),
    ensures
        final(out)@ == old(out)@ + lvalue_code(target@, fun_name@, variables_table@),
    decreases target,
{
    match target {
        Expr::Var(name) => {
            let addr = variables_table.get(fun_name, name).unwrap();
            out.append("copy r0 ");
            push_u64(out, addr as u64);
            out.append("\n");
        },
        Expr::Deref(inner) => {
            compile_lvalue(out, inner, fun_name, variables_table);
            out.append("load r0 [r0]\n");
        },
        _ => {},
    }
    assert(final(out)@ =~= old(out)@ + lvalue_code(target@, fun_name@, variables_table@));
}

/// Writes the code of the statements of `body`, one after the other.
pub fn compile_body(
    out: &mut String,
    body: &Vec<Stmt>,
    fun_name: &String,
    variables_table: &VarTable,
    labels: &mut LabelCounter,
) -> (r: std::fmt::Result)
    requires
        stmts_ok(stmts_view(body@), fun_name@, variables_table@),
    ensures
        r is Ok,
        final(out)@ == old(out)@ + stmts_code(
            stmts_view(body@),
            fun_name@,
            variables_table@,
            old(labels).next,
        ).0,
        final(labels).next == stmts_code(
            stmts_view(body@),
            fun_name@,
            variables_table@,
            old(labels).next,
        ).1,
    decreases body@, 0nat,
{
    let ghost l0 = labels.next;
    let ghost vs = stmts_view(body@);
    proof {
        lemma_stmts_view_index(body@);
        assert(vs.subrange(0, vs.len() as int) =~= vs);
    }
    let n = body.len();
    let mut i: usize = 0;
    while i < n
        invariant
            n == body@.len(),
            vs == stmts_view(body@),
            vs.len() == n,
            forall|k: int| 0 <= k < n ==> #[trigger] vs[k] == body@[k]@,
            0 <= i <= n,
            stmts_ok(vs.subrange(i as int, n as int), fun_name@, variables_table@),
            old(out)@ + stmts_code(vs, fun_name@, variables_table@, l0).0 == out@ + stmts_code(
                vs.subrange(i as int, n as int),
                fun_name@,
                variables_table@,
                labels.next,
            ).0,
            stmts_code(vs, fun_name@, variables_table@, l0).1 == stmts_code(
                vs.subrange(i as int, n as int),
                fun_name@,
                variables_table@,
                labels.next,
            ).1,
        decreases n - i,
    {
        let ghost li = labels.next;
        let ghost rest = vs.subrange(i as int, n as int);
        proof {
            assert(rest[0] == vs[i as int]);
            assert(rest.subrange(1, rest.len() as int) =~= vs.subrange(i + 1, n as int));
        }
        compile_stmt(out, &body[i], fun_name, variables_table, labels)?;
        i = i + 1;
        proof {
            let c2 = stmts_code(vs.subrange(i as int, n as int), fun_name@, variables_table@, labels.next).0;
            assert(old(out)@ + stmts_code(vs, fun_name@, variables_table@, l0).0 =~= out@ + c2);
        }
    }
    assert(vs.subrange(n as int, n as int) =~= Seq::<StmtV>::empty());
    assert(final(out)@ =~= old(out)@ + stmts_code(vs, fun_name@, variables_table@, l0).0);
    Ok(())
}

/// Writes a `return`: the value goes under the return address.
fn compile_return(
    out: &mut String,
    expr: &Expr,
    fun_name: &String,
    variables_table: &VarTable,
    labels: &mut LabelCounter,
)
    requires
        stmt_ok(StmtV::Return(expr@), fun_name@, variables_table@),
    ensures
        final(out)@ == old(out)@ + stmt_code(
            StmtV::Return(expr@),
            fun_name@,
            variables_table@,
            old(labels).next,
        ).0,
        final(labels).next == stmt_code(
            StmtV::Return(expr@),
            fun_name@,
            variables_table@,
            old(labels).next,
        ).1,
{
    let ghost l0 = labels.next;
    out.append("; return ");
    push_expr_debug(out, expr);
    out.append("\n");
    let _ = compile_expr(out, expr, fun_name, variables_table, labels);
    out.append("pop r0\npop r1\npush r0\npush r1\nret\n");
    assert(final(out)@ =~= old(out)@ + stmt_code(
        StmtV::Return(expr@),
        fun_name@,
        variables_table@,
        l0,
    ).0);
}

/// Writes a declaration: the initial value is stored at the variable's
/// address.
fn compile_decl(
    out: &mut String,
    ty: &crate::ast::Type,
    name: &String,
    init: &Expr,
    fun_name: &String,
    variables_table: &VarTable,
    labels: &mut LabelCounter,
)
    requires
        stmt_ok(StmtV::Decl { ty: *ty, name: name@, init: init@ }, fun_name@, variables_table@),
    ensures
        final(out)@ == old(out)@ + stmt_code(
            StmtV::Decl { ty: *ty, name: name@, init: init@ },
            fun_name@,
            variables_table@,
            old(labels).next,
        ).0,
        final(labels).next == stmt_code(
            StmtV::Decl { ty: *ty, name: name@, init: init@ },
            fun_name@,
            variables_table@,
            old(labels).next,
        ).1,
{
    let ghost l0 = labels.next;
    out.append("; u32 ");
    out.append(name.as_str());
    out.append(" = ");
    push_expr_debug(out, init);
    out.append("\n");
    let _ = compile_expr(out, init, fun_name, variables_table, labels);
    let addr = variables_table.get(fun_name, name).unwrap();
    out.append("copy r0 ");
    push_u64(out, addr as u64);
    out.append("\npop r1 ; the stack contains the value of ");
    out.append(name.as_str());
    out.append("\nstore [r0] r1\n");
    assert(final(out)@ =~= old(out)@ + stmt_code(
        StmtV::Decl { ty: *ty, name: name@, init: init@ },
        fun_name@,
        variables_table@,
        l0,
    ).0);
}

/// Writes an assignment: the value, then the target's address, then the
/// store.
fn compile_assign(
    out: &mut String,
    target: &Expr,
    value: &Expr,
    fun_name: &String,
    variables_table: &VarTable,
    labels: &mut LabelCounter,
)
    requires
        stmt_ok(StmtV::Assign { target: target@, value: value@ }, fun_name@, variables_table@),
    ensures
        final(out)@ == old(out)@ + stmt_code(
            StmtV::Assign { target: target@, value: value@ },
            fun_name@,
            variables_table@,
            old(labels).next,
        ).0,
        final(labels).next == stmt_code(
            StmtV::Assign { target: target@, value: value@ },
            fun_name@,
            variables_table@,
            old(labels).next,
        ).1,
{
    let ghost l0 = labels.next;
    out.append("; ");
    push_expr_debug(out, target);
    out.append(" = ");
    push_expr_debug(out, value);
    out.append("\n");
    let _ = compile_expr(out, value, fun_name, variables_table, labels);
    out.append("pop r1 ; the stack contains the value of ");
    push_expr_debug(out, target);
    out.append("\n");
    compile_lvalue(out, target, fun_name, variables_table);
    out.append("store [r0] r1\n");
    assert(final(out)@ =~= old(out)@ + stmt_code(
        StmtV::Assign { target: target@, value: value@ },
        fun_name@,
        variables_table@,
        l0,
    ).0);
}

/// Writes an expression statement, whose value is dropped.
fn compile_expr_stmt(
    out: &mut String,
    expr: &Expr,
    fun_name: &String,
    variables_table: &VarTable,
    labels: &mut LabelCounter,
)
    requires
        stmt_ok(StmtV::Expr(expr@), fun_name@, variables_table@),
    ensures
        final(out)@ == old(out)@ + stmt_code(
            StmtV::Expr(expr@),
            fun_name@,
            variables_table@,
            old(labels).next,
        ).0,
        final(labels).next == stmt_code(
            StmtV::Expr(expr@),
            fun_name@,
            variables_table@,
            old(labels).next,
        ).1,
{
    let ghost l0 = labels.next;
    out.append("; raw expr (");
    push_expr_debug(out, expr);
    out.append(")\n");
    let _ = compile_expr(out, expr, fun_name, variables_table, labels);
    out.append("pop r0 ; pop to not grow the stack\n");
    assert(final(out)@ =~= old(out)@ + stmt_code(
        StmtV::Expr(expr@),
        fun_name@,
        variables_table@,
        l0,
    ).0);
}

#[verifier::rlimit(40)]
fn compile_if(
    out: &mut String,
    cond: &Expr,
    body: &Vec<Stmt>,
    fun_name: &String,
    variables_table: &VarTable,
    labels: &mut LabelCounter,
)
    requires
        stmt_ok(StmtV::If { cond: cond@, body: stmts_view(body@) }, fun_name@, variables_table@),
    ensures
        final(out)@ == old(out)@ + stmt_code(
            StmtV::If { cond: cond@, body: stmts_view(body@) },
            fun_name@,
            variables_table@,
            old(labels).next,
        ).0,
        final(labels).next == stmt_code(
            StmtV::If { cond: cond@, body: stmts_view(body@) },
            fun_name@,
            variables_table@,
            old(labels).next,
        ).1,
    decreases body@, 1nat,
{
    let ghost l0 = labels.next;
    out.append("; if (");
    push_expr_debug(out, cond);
    out.append(")\n");
    let ghost head = out@;
    let _ = compile_expr(out, cond, fun_name, variables_table, labels);
    let ghost c = expr_code(cond@, fun_name@, variables_table@, l0).0;
    assert(out@ == head + c);
    let label = new_label(labels);
    out.append("pop r0\nskip 1 ifeq r0 0\njump if_");
    push_u64(out, label);
    out.append("_true\njump if_");
    push_u64(out, label);
    out.append("_false\nif_");
    push_u64(out, label);
    out.append("_true:\n");
    let ghost mid = out@;
    let _ = compile_body(out, body, fun_name, variables_table, labels);
    let ghost cb = stmts_code(stmts_view(body@), fun_name@, variables_table@, label_after(label)).0;
    assert(out@ == mid + cb);
    out.append("jump if_");
    push_u64(out, label);
    out.append("_end\nif_");
    push_u64(out, label);
    out.append("_false:\njump if_");
    push_u64(out, label);
    out.append("_end\nif_");
    push_u64(out, label);
    out.append("_end:\n");
    assert(final(out)@ =~= old(out)@ + stmt_code(
        StmtV::If { cond: cond@, body: stmts_view(body@) },
        fun_name@,
        variables_table@,
        l0,
    ).0);
}

#[verifier::rlimit(40)]
fn compile_while(
    out: &mut String,
    cond: &Expr,
    body: &Vec<Stmt>,
    fun_name: &String,
    variables_table: &VarTable,
    labels: &mut LabelCounter,
)
    requires
        stmt_ok(StmtV::While { cond: cond@, body: stmts_view(body@) }, fun_name@, variables_table@),
    ensures
        final(out)@ == old(out)@ + stmt_code(
            StmtV::While { cond: cond@, body: stmts_view(body@) },
            fun_name@,
            variables_table@,
            old(labels).next,
        ).0,
        final(labels).next == stmt_code(
            StmtV::While { cond: cond@, body: stmts_view(body@) },
            fun_name@,
            variables_table@,
            old(labels).next,
        ).1,
    decreases body@, 1nat,
{
    let ghost l0 = labels.next;
    out.append("; while (");
    push_expr_debug(out, cond);
    let label = new_label(labels);
    out.append(")\nwhile_");
    push_u64(out, label);
    out.append("_check:\n");
    let ghost head = out@;
    let _ = compile_expr(out, cond, fun_name, variables_table, labels);
    let ghost c = expr_code(cond@, fun_name@, variables_table@, label_after(l0)).0;
    assert(out@ == head + c);
    out.append("pop r0\nskip 1 ifeq r0 0\njump while_");
    push_u64(out, label);
    out.append("_true\njump while_");
    push_u64(out, label);
    out.append("_end\nwhile_");
    push_u64(out, label);
    out.append("_true:\n");
    let ghost mid = out@;
    let _ = compile_body(out, body, fun_name, variables_table, labels);
    let ghost cb = stmts_code(stmts_view(body@), fun_name@, variables_table@, expr_code(cond@, fun_name@, variables_table@, label_after(l0)).1).0;
    assert(out@ == mid + cb);
    out.append("jump while_");
    push_u64(out, label);
    out.append("_check\nwhile_");
    push_u64(out, label);
    out.append("_end:\n");
    assert(final(out)@ =~= old(out)@ + stmt_code(
        StmtV::While { cond: cond@, body: stmts_view(body@) },
        fun_name@,
        variables_table@,
        l0,
    ).0);
}

/// Writes the code of `stmt` for function `fun_name`, after a comment
/// that shows the statement.
pub fn compile_stmt(
    out: &mut String,
    stmt: &Stmt,
    fun_name: &String,
    variables_table: &VarTable,
    labels: &mut LabelCounter,
) -> (r: std::fmt::Result)
    requires
        stmt_ok(stmt@, fun_name@, variables_table@),
    ensures
        r is Ok,
        final(out)@ == old(out)@ + stmt_code(
            stmt@,
            fun_name@,
            variables_table@,
            old(labels).next,
        ).0,
        final(labels).next == stmt_code(stmt@, fun_name@, variables_table@, old(labels).next).1,
    decreases stmt, 2nat,
{
    match stmt {
        Stmt::Return(expr) => compile_return(out, expr, fun_name, variables_table, labels),
        Stmt::Decl { ty, name, init } => compile_decl(
            out,
            ty,
            name,
            init,
            fun_name,
            variables_table,
            labels,
        ),
        Stmt::If { cond, body } => compile_if(out, cond, body, fun_name, variables_table, labels),
        Stmt::Assign { target, value } => compile_assign(
            out,
            target,
            value,
            fun_name,
            variables_table,
            labels,
        ),
        Stmt::While { cond, body } => compile_while(
            out,
            cond,
            body,
            fun_name,
            variables_table,
            labels,
        ),
        Stmt::For { .. } => {},
        Stmt::Expr(expr) => compile_expr_stmt(out, expr, fun_name, variables_table, labels),
    }
    Ok(())
}

/// The code that moves parameter `name` from under the return address
/// into its variable at `addr`.
pub open spec fn param_text(name: Seq<char>, addr: u32) -> Seq<char> {
    "; set of "@ + name + "\npop r0\npop r1\npush r0\ncopy r0 "@ + nat_text(addr as nat)
        + "\nstore [r0] r1\n"@
}

/// The code that takes the parameters `ps` of function `f` off the stack.
pub open spec fn params_text(ps: Seq<(Type, Seq<char>)>, f: Seq<char>, t: Seq<EntryV>) -> Seq<
    char,
>
    decreases ps.len(),
{
    if ps.len() == 0 {
        "; params handling\n"@
    } else {
        params_text(ps.drop_last(), f, t) + param_text(ps.last().1, addr_of(t, f, ps.last().1))
    }
}

/// What follows the statements of a function, for a function that ends
/// without `return`: a `void` function returns 0, another one fails.
pub open spec fn body_tail(ret: Type) -> Seq<char> {
    "; Oh no we got out of the scope !\n"@ + if ret.base == BaseType::Void {
        "; Eh its fine we are in a void func\n; we push a NULL\npop r0 ; we push a NULL\npush 0\npush r0\nret\n"@
    } else {
        "; Oh no we are in trouble\njump red\n"@
    }
}

/// The code of function `fv`: its label, then its parameter handling and
/// its body, each line indented.
pub open spec fn function_code(fv: FunctionV, t: Seq<EntryV>, l: u64) -> (Seq<char>, u64) {
    let (cb, l1) = stmts_code(fv.body, fv.name, t, l);
    (
        fv.name + ":\n"@ + indent_lines(params_text(fv.params, fv.name, t)) + indent_lines(
            cb + body_tail(fv.return_ty),
        ) + "; end of func "@ + fv.name + "\n\n"@,
        l1,
    )
}

/// The code of the functions `fs`, one after the other.
pub open spec fn functions_code(fs: Seq<FunctionV>, t: Seq<EntryV>, l: u64) -> (Seq<char>, u64)
    decreases fs.len(),
{
    if fs.len() == 0 {
        (Seq::empty(), l)
    } else {
        let (c1, l1) = function_code(fs[0], t, l);
        let (c2, l2) = functions_code(fs.skip(1), t, l1);
        (c1 + c2, l2)
    }
}

/// The start of every program: it sets up the stack and calls `main`,
/// whose result chooses between the `green` and the `red` ending.
pub open spec fn prologue() -> Seq<char> {
    "; init of stack\nlet r0 0x00fffffc\ncopy sp r0\n; entrypoint\njump _start\n_start:\n    ; no args possible for now\n    call main\n    ; handling of exit codes\n    pop r0\n    skip 1 ifne r0 0\n    jump green ; true\n    jump red ; false\n\n"@
}

/// The end of every program: the `green` and `red` loops that fill the
/// screen with one colour.
pub open spec fn epilogue() -> Seq<char> {
    "\n\ngreen:\n    copy r3 0\n    let r0 0x01000000\n    let r1 0x0000FF00\ngloop:\n    xor r2 r2 r2\n    add r2 r2 r3\n    add r2 r2 r3\n    add r2 r2 r3\n    add r2 r2 r3\n    store [r0 + r2] r1\n    add r3 r3 1\n    jump gloop\n\nred:\n    copy r3 0\n    let r0 0x01000000\n    let r1 0x000000FF\nrloop:\n    xor r2 r2 r2\n    add r2 r2 r3\n    add r2 r2 r3\n    add r2 r2 r3\n    add r2 r2 r3\n    store [r0 + r2] r1\n    add r3 r3 1\n    jump rloop\n"@
}

/// The assembly of program `p` with variable table `t` and labels from
/// `l`, and the next free label after it.
pub open spec fn program_code(p: ProgramV, t: Seq<EntryV>, l: u64) -> (Seq<char>, u64) {
    let (c, l1) = functions_code(p.funcs, t, l);
    (prologue() + c + epilogue(), l1)
}

/// The bodies of all functions of `p` are handled by the code generator
/// with table `t`.
pub open spec fn bodies_ok(p: ProgramV, t: Seq<EntryV>) -> bool {
    forall|i: int| 0 <= i < p.funcs.len() ==> stmts_ok(#[trigger] p.funcs[i].body, p.funcs[i].name, t)
}

/// The programs that `codegen` handles: not too many variables for the
/// 32-bit addresses, and, once the variables are laid out, bodies that
/// the code generator handles.
pub open spec fn compilable(p: ProgramV) -> bool {
    &&& program_decls(p.funcs).len() <= MAX_DECLS
    &&& layout(p) matches Ok(t) ==> bodies_ok(p, t)
}

/// Writes the [`prologue`].
fn append_prologue(out: &mut String)
    ensures
        final(out)@ == old(out)@ + prologue(),
{
    out.append("; init of stack\nlet r0 0x00fffffc\ncopy sp r0\n; entrypoint\njump _start\n_start:\n    ; no args possible for now\n    call main\n    ; handling of exit codes\n    pop r0\n    skip 1 ifne r0 0\n    jump green ; true\n    jump red ; false\n\n");
}

/// Writes the [`epilogue`].
fn append_epilogue(out: &mut String)
    ensures
        final(out)@ == old(out)@ + epilogue(),
{
    out.append("\n\ngreen:\n    copy r3 0\n    let r0 0x01000000\n    let r1 0x0000FF00\ngloop:\n    xor r2 r2 r2\n    add r2 r2 r3\n    add r2 r2 r3\n    add r2 r2 r3\n    add r2 r2 r3\n    store [r0 + r2] r1\n    add r3 r3 1\n    jump gloop\n\nred:\n    copy r3 0\n    let r0 0x01000000\n    let r1 0x000000FF\nrloop:\n    xor r2 r2 r2\n    add r2 r2 r3\n    add r2 r2 r3\n    add r2 r2 r3\n    add r2 r2 r3\n    store [r0 + r2] r1\n    add r3 r3 1\n    jump rloop\n");
}

/// Writes the parameter handling of function `f`.
fn params_code(f: &crate::ast::Function, variables_table: &VarTable) -> (r: String)
    requires
        forall|j: int|
            0 <= j < f.params@.len() ==> declared(
                variables_table@,
                f.name@,
                #[trigger] f.params@[j].1@,
            ),
    ensures
        r@ == params_text(f@.params, f.name@, variables_table@),
{
    let mut params = String::new();
    params.append("; params handling\n");
    let n = f.params.len();
    let mut j: usize = 0;
    let ghost ps = f@.params;
    assert(ps.take(0) =~= Seq::<(Type, Seq<char>)>::empty());
    while j < n
        invariant
            n == f.params@.len(),
            ps == f@.params,
            ps.len() == n,
            0 <= j <= n,
            forall|k: int|
                0 <= k < f.params@.len() ==> declared(
                    variables_table@,
                    f.name@,
                    #[trigger] f.params@[k].1@,
                ),
            params@ == params_text(ps.take(j as int), f.name@, variables_table@),
        decreases n - j,
    {
        let name = &f.params[j].1;
        assert(declared(variables_table@, f.name@, f.params@[j as int].1@));
        params.append("; set of ");
        params.append(name.as_str());
        params.append("\npop r0\npop r1\npush r0\ncopy r0 ");
        let addr = variables_table.get(&f.name, name).unwrap();
        push_u64(&mut params, addr as u64);
        params.append("\nstore [r0] r1\n");
        assert(ps.take(j + 1).drop_last() =~= ps.take(j as int));
        j = j + 1;
        assert(params@ =~= params_text(ps.take(j as int), f.name@, variables_table@));
    }
    assert(ps.take(n as int) =~= ps);
    params
}

/// Generates the assembly of a program.
///
/// First every variable gets an address: the parameters and the
/// top-level declarations of each function, in order, four bytes apart
/// from `0xEFFC`; a variable of base type `void`, or one that its function
/// declares twice, is an error. Then each function is written after its
/// label: the code that takes its parameters off the stack, the code of
/// its statements, and a fallback for a missing `return`; the whole goes
/// between a fixed prologue and epilogue. Labels come from `labels`.
pub fn codegen(ast: Program, labels: &mut LabelCounter) -> (r: Result<String, String>)
    requires
        compilable(ast@),
    ensures
        match layout(ast@) {
            Err(e) => r matches Err(m) && m@ == e && final(labels).next == old(labels).next,
            Ok(t) => r matches Ok(s) && s@ == program_code(ast@, t, old(labels).next).0
                && final(labels).next == program_code(ast@, t, old(labels).next).1,
        },
{
    let variables_table = match declare_variables(&ast) {
        Ok(t) => t,
        Err(e) => {
            return Err(e);
        },
    };
    let ghost t = variables_table@;
    let ghost l0 = labels.next;
    let ghost fs = ast@.funcs;
    proof {
        lemma_declare_all_ok(Seq::empty(), program_decls(fs), t);
        assert(fs.skip(0) =~= fs);
    }
    let mut main_func = String::new();
    let nf = ast.funcs.len();
    let mut i: usize = 0;
    while i < nf
        invariant
            nf == ast.funcs@.len(),
            fs == ast@.funcs,
            fs.len() == nf,
            t == variables_table@,
            layout(ast@) == Ok::<Seq<EntryV>, Seq<char>>(t),
            bodies_ok(ast@, t),
            forall|k: int|
                0 <= k < program_decls(fs).len() ==> lookup(t, #[trigger] program_decls(fs)[k].0, program_decls(fs)[k].1)
                    is Some,
            0 <= i <= nf,
            functions_code(fs, t, l0).0 == main_func@ + functions_code(
                fs.skip(i as int),
                t,
                labels.next,
            ).0,
            functions_code(fs, t, l0).1 == functions_code(fs.skip(i as int), t, labels.next).1,
        decreases nf - i,
    {
        let func = &ast.funcs[i];
        let ghost fv = fs[i as int];
        let ghost li = labels.next;
        proof {
            assert(fv == crate::ast::function_view(*func));
            assert forall|j: int| 0 <= j < func.params@.len() implies declared(
                t,
                func.name@,
                #[trigger] func.params@[j].1@,
            ) by {
                lemma_param_decl_in_program(fs, i as int, j);
                let k = choose|k: int| 0 <= k < program_decls(fs).len() && program_decls(fs)[k]
                    == param_decls(fs[i as int])[j];
                assert(program_decls(fs)[k].0 == func.name@);
            }
            assert(fs.skip(i as int)[0] == fv);
            assert(fs.skip(i as int).skip(1) =~= fs.skip(i + 1));
        }
        let ghost before = main_func@;
        main_func.append(func.name.as_str());
        main_func.append(":\n");
        let params = params_code(func, &variables_table);
        let params_ind = indent(params.as_str());
        main_func.append(params_ind.as_str());
        let mut body = String::new();
        let _ = compile_body(&mut body, &func.body, &func.name, &variables_table, labels);
        body.append("; Oh no we got out of the scope !\n");
        match func.return_ty.base {
            BaseType::Void => {
                body.append(
                    "; Eh its fine we are in a void func\n; we push a NULL\npop r0 ; we push a NULL\npush 0\npush r0\nret\n",
                );
            },
            _ => {
                body.append("; Oh no we are in trouble\njump red\n");
            },
        }
        let body_ind = indent(body.as_str());
        main_func.append(body_ind.as_str());
        main_func.append("; end of func ");
        main_func.append(func.name.as_str());
        main_func.append("\n\n");
        proof {
            let (c1, l1) = function_code(fv, t, li);
            assert(body@ =~= stmts_code(fv.body, fv.name, t, li).0 + body_tail(fv.return_ty));
            assert(main_func@ =~= before + c1);
            assert(functions_code(fs, t, l0).0 =~= main_func@ + functions_code(
                fs.skip(i + 1),
                t,
                labels.next,
            ).0);
        }
        i = i + 1;
    }
    assert(fs.skip(nf as int).len() == 0);
    let mut assembly_output = String::new();
    append_prologue(&mut assembly_output);
    assembly_output.append(main_func.as_str());
    append_epilogue(&mut assembly_output);
    assert(assembly_output@ =~= program_code(ast@, t, l0).0);
    Ok(assembly_output)
}

/// Whether every argument is handled (see [`args_ok`]).
fn check_args(args: &Vec<Expr>, f: &String, t: &VarTable) -> (b: bool)
    ensures
        b == args_ok(exprs_view(args@), f@, t@),
    decreases args@, 0nat,
{
    let ghost vs = exprs_view(args@);
    proof {
        lemma_exprs_view_index(args@);
    }
    let n = args.len();
    let mut i: usize = 0;
    assert(vs.take(0) =~= Seq::<ExprV>::empty());
    while i < n
        invariant
            n == args@.len(),
            vs == exprs_view(args@),
            vs.len() == n,
            forall|k: int| 0 <= k < n ==> #[trigger] vs[k] == args@[k]@,
            0 <= i <= n,
            args_ok(vs.take(i as int), f@, t@),
        decreases n - i,
    {
        assert(vs.take(i + 1).drop_last() =~= vs.take(i as int));
        assert(vs.take(i + 1).last() == vs[i as int]);
        if !check_expr(&args[i], f, t) {
            proof {
                if args_ok(vs, f@, t@) {
                    lemma_args_ok_prefix(vs, i + 1, f@, t@);
                }
            }
            return false;
        }
        i = i + 1;
    }
    assert(vs.take(n as int) =~= vs);
    true
}

/// Every prefix of handled arguments is handled.
proof fn lemma_args_ok_prefix(s: Seq<ExprV>, k: int, f: Seq<char>, t: Seq<EntryV>)
    requires
        0 <= k <= s.len(),
        args_ok(s, f, t),
    ensures
        args_ok(s.take(k), f, t),
    decreases s.len(),
{
    if k == s.len() {
        assert(s.take(k) =~= s);
    } else {
        assert(s.drop_last().take(k) =~= s.take(k));
        lemma_args_ok_prefix(s.drop_last(), k, f, t);
    }
}

/// Whether the code generator handles expression `e` in function `f`.
pub fn check_expr(e: &Expr, f: &String, t: &VarTable) -> (b: bool)
    ensures
        b == expr_ok(e@, f@, t@),
    decreases e, 1nat,
{
    match e {
        Expr::Int(_) => true,
        Expr::Var(n) => t.get(f, n).is_some(),
        Expr::Call { args, .. } => check_args(args, f, t),
        Expr::AddrOf(a) => match &**a {
            Expr::Var(n) => {
                assert((**a)@ == ExprV::Var(n@));
                t.get(f, n).is_some()
            },
            Expr::Deref(x) => {
                assert((**a)@ == ExprV::Deref(Box::new((**x)@)));
                check_expr(x, f, t)
            },
            _ => false,
        },
        Expr::Deref(a) => check_expr(a, f, t),
        Expr::Add(a, b) | Expr::Sub(a, b) | Expr::And(a, b) | Expr::Or(a, b)
        | Expr::LShift(a, b) | Expr::RShift(a, b) | Expr::BinEq(a, b) | Expr::BinNEq(a, b)
        | Expr::LE(a, b) | Expr::GE(a, b) | Expr::GT(a, b) | Expr::LT(a, b) => {
            check_expr(a, f, t) && check_expr(b, f, t)
        },
        Expr::Str(_) => false,
        Expr::ArrayLit(_) => false,
    }
}

/// Whether an assignment target is handled (see [`lvalue_ok`]).
fn check_lvalue(e: &Expr, f: &String, t: &VarTable) -> (b: bool)
    ensures
        b == lvalue_ok(e@, f@, t@),
    decreases e,
{
    match e {
        Expr::Var(n) => t.get(f, n).is_some(),
        Expr::Deref(x) => check_lvalue(x, f, t),
        _ => false,
    }
}

/// Whether every statement of a body is handled (see [`stmts_ok`]).
fn check_body(body: &Vec<Stmt>, f: &String, t: &VarTable) -> (b: bool)
    ensures
        b == stmts_ok(stmts_view(body@), f@, t@),
    decreases body@, 0nat,
{
    let ghost vs = stmts_view(body@);
    proof {
        lemma_stmts_view_index(body@);
        assert(vs.subrange(0, vs.len() as int) =~= vs);
    }
    let n = body.len();
    let mut i: usize = 0;
    while i < n
        invariant
            n == body@.len(),
            vs == stmts_view(body@),
            vs.len() == n,
            forall|k: int| 0 <= k < n ==> #[trigger] vs[k] == body@[k]@,
            0 <= i <= n,
            stmts_ok(vs, f@, t@) == stmts_ok(vs.subrange(i as int, n as int), f@, t@),
        decreases n - i,
    {
        let ghost rest = vs.subrange(i as int, n as int);
        assert(rest[0] == vs[i as int]);
        assert(rest.subrange(1, rest.len() as int) =~= vs.subrange(i + 1, n as int));
        if !check_stmt(&body[i], f, t) {
            return false;
        }
        i = i + 1;
    }
    true
}

/// Whether the code generator handles statement `s` in function `f`.
pub fn check_stmt(s: &Stmt, f: &String, t: &VarTable) -> (b: bool)
    ensures
        b == stmt_ok(s@, f@, t@),
    decreases s, 1nat,
{
    match s {
        Stmt::Return(e) => check_expr(e, f, t),
        Stmt::Decl { ty, name, init } => {
            let plain_void = match ty.base {
                BaseType::Void => ty.ptr == 0,
                BaseType::U32 => false,
            };
            !plain_void && check_expr(init, f, t) && t.get(f, name).is_some()
        },
        Stmt::Assign { target, value } => check_expr(value, f, t) && check_lvalue(target, f, t),
        Stmt::If { cond, body } => check_expr(cond, f, t) && check_body(body, f, t),
        Stmt::While { cond, body } => check_expr(cond, f, t) && check_body(body, f, t),
        Stmt::For { .. } => false,
        Stmt::Expr(e) => check_expr(e, f, t),
    }
}

/// The functions from `i` on declare as many variables as function `i`
/// and the functions after it together.
proof fn lemma_program_decls_step(fs: Seq<FunctionV>, i: int)
    requires
        0 <= i < fs.len(),
    ensures
        program_decls(fs.skip(i)).len() == function_decls(fs[i]).len() + program_decls(
            fs.skip(i + 1),
        ).len(),
{
    assert(fs.skip(i)[0] == fs[i]);
    assert(fs.skip(i).skip(1) =~= fs.skip(i + 1));
}

/// The number of declarations at the top level of `body`.
fn count_decls(body: &Vec<Stmt>, fname: Ghost<Seq<char>>) -> (n: usize)
    ensures
        n == body_decls(fname@, stmts_view(body@)).len(),
{
    let ghost vs = stmts_view(body@);
    proof {
        lemma_stmts_view_index(body@);
        assert(vs.skip(0) =~= vs);
    }
    let n = body.len();
    let mut i: usize = 0;
    let mut c: usize = 0;
    while i < n
        invariant
            n == body@.len(),
            vs == stmts_view(body@),
            vs.len() == n,
            forall|k: int| 0 <= k < n ==> #[trigger] vs[k] == body@[k]@,
            0 <= i <= n,
            c <= i,
            c + body_decls(fname@, vs.skip(i as int)).len() == body_decls(fname@, vs).len(),
        decreases n - i,
    {
        let ghost rest = vs.skip(i as int);
        assert(rest[0] == vs[i as int]);
        assert(rest.skip(1) =~= vs.skip(i + 1));
        match &body[i] {
            Stmt::Decl { .. } => {
                c = c + 1;
            },
            _ => {},
        }
        i = i + 1;
    }
    assert(vs.skip(n as int).len() == 0);
    c
}

/// Whether `codegen` handles program `p` (see [`compilable`]); where it
/// does not, the code generator has no defined result.
pub fn can_compile(p: &Program) -> (b: bool)
    ensures
        b == compilable(p@),
{
    let ghost fs = p@.funcs;
    let nf = p.funcs.len();
    let mut i: usize = 0;
    let mut total: usize = 0;
    assert(fs.skip(0) =~= fs);
    while i < nf
        invariant
            nf == p.funcs@.len(),
            fs == p@.funcs,
            fs.len() == nf,
            0 <= i <= nf,
            total <= MAX_DECLS,
            total + program_decls(fs.skip(i as int)).len() == program_decls(fs).len(),
        decreases nf - i,
    {
        let func = &p.funcs[i];
        proof {
            lemma_program_decls_step(fs, i as int);
            assert(fs[i as int] == crate::ast::function_view(*func));
        }
        let np = func.params.len();
        let nd = count_decls(&func.body, Ghost(func.name@));
        if np > MAX_DECLS - total {
            return false;
        }
        total = total + np;
        if nd > MAX_DECLS - total {
            return false;
        }
        total = total + nd;
        i = i + 1;
    }
    assert(fs.skip(nf as int).len() == 0);
    let table = match declare_variables(p) {
        Ok(t) => t,
        Err(_) => {
            return true;
        },
    };
    let mut i: usize = 0;
    while i < nf
        invariant
            nf == p.funcs@.len(),
            fs == p@.funcs,
            fs.len() == nf,
            0 <= i <= nf,
            layout(p@) == Ok::<Seq<EntryV>, Seq<char>>(table@),
            forall|k: int| 0 <= k < i ==> stmts_ok(#[trigger] fs[k].body, fs[k].name, table@),
        decreases nf - i,
    {
        let func = &p.funcs[i];
        assert(fs[i as int] == crate::ast::function_view(*func));
        if !check_body(&func.body, &func.name, &table) {
            assert(!stmts_ok(p@.funcs[i as int].body, p@.funcs[i as int].name, table@));
            return false;
        }
        i = i + 1;
    }
    true
}

/// Law: taking the address of a dereference is the identity: `&*e` is
/// handled exactly when `e` is, and has the same code.
pub proof fn lemma_addr_of_deref(e: ExprV, f: Seq<char>, t: Seq<EntryV>, l: u64)
    ensures
        expr_ok(ExprV::AddrOf(Box::new(ExprV::Deref(Box::new(e)))), f, t) == expr_ok(e, f, t),
        expr_code(ExprV::AddrOf(Box::new(ExprV::Deref(Box::new(e)))), f, t, l) == expr_code(
            e,
            f,
            t,
            l,
        ),
{
}

/// The number of labels that the code of expression `e` takes: one per
/// comparison.
pub open spec fn expr_labels(e: ExprV) -> nat
    decreases e,
{
    match e {
        ExprV::Call { args, .. } => args_labels(args),
        ExprV::AddrOf(a) => match *a {
            ExprV::Deref(x) => expr_labels(*x),
            _ => 0,
        },
        ExprV::Deref(a) => expr_labels(*a),
        ExprV::Add(a, b) | ExprV::Sub(a, b) | ExprV::And(a, b) | ExprV::Or(a, b)
        | ExprV::LShift(a, b) | ExprV::RShift(a, b) => expr_labels(*a) + expr_labels(*b),
        ExprV::BinEq(a, b) | ExprV::BinNEq(a, b) | ExprV::LE(a, b) | ExprV::GE(a, b)
        | ExprV::GT(a, b) | ExprV::LT(a, b) => expr_labels(*a) + expr_labels(*b) + 1,
        _ => 0,
    }
}

/// The number of labels that the arguments `s` take.
pub open spec fn args_labels(s: Seq<ExprV>) -> nat
    decreases s,
{
    if s.len() == 0 {
        0
    } else {
        expr_labels(s.last()) + args_labels(s.drop_last())
    }
}

/// Law: the code of an expression takes exactly one fresh label per
/// comparison: unless the counter wraps, it moves from `l` to
/// `l + expr_labels(e)`.
pub proof fn lemma_expr_labels(e: ExprV, f: Seq<char>, t: Seq<EntryV>, l: u64)
    requires
        l + expr_labels(e) <= u64::MAX,
    ensures
        expr_code(e, f, t, l).1 == l + expr_labels(e),
    decreases e, 1nat,
{
    if e is Call {
        lemma_args_labels(e->args, f, t, l);
    } else {
        match e {
            ExprV::AddrOf(a) => {
                match *a {
                    ExprV::Deref(x) => {
                        lemma_expr_labels(*x, f, t, l);
                    },
                    _ => {},
                }
            },
            ExprV::Deref(a) => {
                lemma_expr_labels(*a, f, t, l);
            },
            ExprV::Add(a, b) | ExprV::Sub(a, b) | ExprV::And(a, b) | ExprV::Or(a, b)
            | ExprV::LShift(a, b) | ExprV::RShift(a, b) => {
                lemma_expr_labels(*a, f, t, l);
                let la = expr_code(*a, f, t, l).1;
                lemma_expr_labels(*b, f, t, la);
                let lb = expr_code(*b, f, t, la).1;
                assert(arith_code("add"@, e, f, t, l).1 == lb);
                assert(arith_code("sub"@, e, f, t, l).1 == lb);
                assert(arith_code("and"@, e, f, t, l).1 == lb);
                assert(arith_code("or"@, e, f, t, l).1 == lb);
                assert(arith_code("lsl"@, e, f, t, l).1 == lb);
                assert(arith_code("lsr"@, e, f, t, l).1 == lb);
            },
            ExprV::BinEq(a, b) | ExprV::BinNEq(a, b) | ExprV::LE(a, b) | ExprV::GE(a, b)
            | ExprV::GT(a, b) | ExprV::LT(a, b) => {
                lemma_expr_labels(*a, f, t, l);
                let la = expr_code(*a, f, t, l).1;
                lemma_expr_labels(*b, f, t, la);
                let lb = expr_code(*b, f, t, la).1;
                assert(test_code("eq"@, e, f, t, l).1 == label_after(lb));
                assert(test_code("ne"@, e, f, t, l).1 == label_after(lb));
                assert(test_code("le"@, e, f, t, l).1 == label_after(lb));
                assert(test_code("ge"@, e, f, t, l).1 == label_after(lb));
                assert(test_code("gt"@, e, f, t, l).1 == label_after(lb));
                assert(test_code("lt"@, e, f, t, l).1 == label_after(lb));
            },
            _ => {},
        }
    }
}

/// The arguments of a call take one label per comparison in them.
pub proof fn lemma_args_labels(s: Seq<ExprV>, f: Seq<char>, t: Seq<EntryV>, l: u64)
    requires
        l + args_labels(s) <= u64::MAX,
    ensures
        args_code(s, f, t, l).1 == l + args_labels(s),
    decreases s, 0nat,
{
    if s.len() > 0 {
        lemma_expr_labels(s.last(), f, t, l);
        let l1 = expr_code(s.last(), f, t, l).1;
        lemma_args_labels(s.drop_last(), f, t, l1);
    }
}

/// The number of labels that the code of statement `s` takes: those of
/// its expressions, and one for each `if` and `while`.
pub open spec fn stmt_labels(s: StmtV) -> nat
    decreases s,
{
    match s {
        StmtV::Return(e) => expr_labels(e),
        StmtV::Decl { init, .. } => expr_labels(init),
        StmtV::Assign { value, .. } => expr_labels(value),
        StmtV::If { cond, body } => expr_labels(cond) + 1 + stmts_labels(body),
        StmtV::While { cond, body } => 1 + expr_labels(cond) + stmts_labels(body),
        StmtV::For { .. } => 0,
        StmtV::Expr(e) => expr_labels(e),
    }
}

/// The number of labels that the statements `ss` take.
pub open spec fn stmts_labels(ss: Seq<StmtV>) -> nat
    decreases ss,
{
    if ss.len() == 0 {
        0
    } else {
        stmt_labels(ss[0]) + stmts_labels(ss.subrange(1, ss.len() as int))
    }
}

/// Law: the code of a statement takes exactly one fresh label per
/// comparison, `if` and `while` in it: unless the counter wraps, it moves
/// from `l` to `l + stmt_labels(s)`.
pub proof fn lemma_stmt_labels(s: StmtV, f: Seq<char>, t: Seq<EntryV>, l: u64)
    requires
        l + stmt_labels(s) <= u64::MAX,
    ensures
        stmt_code(s, f, t, l).1 == l + stmt_labels(s),
    decreases s,
{
    match s {
        StmtV::Return(e) => lemma_expr_labels(e, f, t, l),
        StmtV::Decl { init, .. } => lemma_expr_labels(init, f, t, l),
        StmtV::Assign { value, .. } => lemma_expr_labels(value, f, t, l),
        StmtV::If { cond, body } => {
            lemma_expr_labels(cond, f, t, l);
            let l1 = expr_code(cond, f, t, l).1;
            lemma_stmts_labels(body, f, t, label_after(l1));
        },
        StmtV::While { cond, body } => {
            lemma_expr_labels(cond, f, t, label_after(l));
            let l1 = expr_code(cond, f, t, label_after(l)).1;
            lemma_stmts_labels(body, f, t, l1);
        },
        StmtV::For { .. } => {},
        StmtV::Expr(e) => lemma_expr_labels(e, f, t, l),
    }
}

/// Statements take the labels of their statements, one after the other.
pub proof fn lemma_stmts_labels(ss: Seq<StmtV>, f: Seq<char>, t: Seq<EntryV>, l: u64)
    requires
        l + stmts_labels(ss) <= u64::MAX,
    ensures
        stmts_code(ss, f, t, l).1 == l + stmts_labels(ss),
    decreases ss,
{
    if ss.len() > 0 {
        lemma_stmt_labels(ss[0], f, t, l);
        let l1 = stmt_code(ss[0], f, t, l).1;
        lemma_stmts_labels(ss.subrange(1, ss.len() as int), f, t, l1);
    }
}

/// The number of labels that the code of functions `fs` takes.
pub open spec fn functions_labels(fs: Seq<FunctionV>) -> nat
    decreases fs.len(),
{
    if fs.len() == 0 {
        0
    } else {
        stmts_labels(fs[0].body) + functions_labels(fs.skip(1))
    }
}

/// Law: the code of a whole program takes exactly one fresh label per
/// comparison, `if` and `while` in its functions: unless the counter
/// wraps, it moves from `l` to `l + functions_labels(p.funcs)`.
pub proof fn lemma_program_labels(p: ProgramV, t: Seq<EntryV>, l: u64)
    requires
        l + functions_labels(p.funcs) <= u64::MAX,
    ensures
        program_code(p, t, l).1 == l + functions_labels(p.funcs),
{
    lemma_functions_labels(p.funcs, t, l);
}

/// The functions take the labels of their bodies, one after the other.
proof fn lemma_functions_labels(fs: Seq<FunctionV>, t: Seq<EntryV>, l: u64)
    requires
        l + functions_labels(fs) <= u64::MAX,
    ensures
        functions_code(fs, t, l).1 == l + functions_labels(fs),
    decreases fs.len(),
{
    if fs.len() > 0 {
        lemma_stmts_labels(fs[0].body, fs[0].name, t, l);
        let l1 = function_code(fs[0], t, l).1;
        lemma_functions_labels(fs.skip(1), t, l1);
    }
}

/// A text made of whole lines: it is empty or ends with `'\n'`.
pub open spec fn whole_lines(s: Seq<char>) -> bool {
    s.len() == 0 || s.last() == '\n'
}

/// A non-empty text that ends with `'\n'`.
pub open spec fn ends_line(s: Seq<char>) -> bool {
    s.len() > 0 && s.last() == '\n'
}

/// Text followed by a line ending keeps that line ending.
proof fn lemma_ends_line_concat(a: Seq<char>, b: Seq<char>)
    requires
        ends_line(b),
    ensures
        ends_line(a + b),
{
    assert((a + b).last() == b.last());
}

/// The code of a handled expression is a non-empty run of whole lines.
proof fn lemma_expr_ends_line(e: ExprV, f: Seq<char>, t: Seq<EntryV>, l: u64)
    requires
        expr_ok(e, f, t),
    ensures
        ends_line(expr_code(e, f, t, l).0),
    decreases e, 1nat,
{
    reveal_strlit("\npush r0\n");
    reveal_strlit("\nload r1 [r0]\npush r1\n");
    reveal_strlit("\n");
    reveal_strlit("pop r0\nload r1 [r0]\npush r1\n");
    reveal_strlit(" r0 r0 r1\npush r0\n");
    reveal_strlit("_end:\n");
    if e is Call {
        lemma_ends_line_concat(args_code(e->args, f, t, l).0 + "call "@ + e->name, "\n"@);
    } else {
        match e {
            ExprV::Int(i) => {
                lemma_ends_line_concat("let r0 "@ + int_text(i as int), "\npush r0\n"@);
            },
            ExprV::Var(n) => {
                lemma_ends_line_concat(
                    "copy r0 "@ + nat_text(addr_of(t, f, n) as nat),
                    "\nload r1 [r0]\npush r1\n"@,
                );
            },
            ExprV::AddrOf(a) => match *a {
                ExprV::Var(n) => {
                    lemma_ends_line_concat("push "@ + nat_text(addr_of(t, f, n) as nat), "\n"@);
                },
                ExprV::Deref(x) => {
                    lemma_expr_ends_line(*x, f, t, l);
                },
                _ => {},
            },
            ExprV::Deref(a) => {
                lemma_ends_line_concat(expr_code(*a, f, t, l).0, "pop r0\nload r1 [r0]\npush r1\n"@);
            },
            ExprV::Add(a, b) | ExprV::Sub(a, b) | ExprV::And(a, b) | ExprV::Or(a, b)
            | ExprV::LShift(a, b) | ExprV::RShift(a, b) => {
                let la = expr_code(*a, f, t, l).1;
                let pre = expr_code(*a, f, t, l).0 + expr_code(*b, f, t, la).0 + pop_operands();
                assert forall|op: Seq<char>| ends_line(pre + #[trigger] arith_tail(op)) by {
                    lemma_ends_line_concat(op, " r0 r0 r1\npush r0\n"@);
                    lemma_ends_line_concat(pre, arith_tail(op));
                }
                assert(arith_code("add"@, e, f, t, l).0 == pre + arith_tail("add"@));
                assert(arith_code("sub"@, e, f, t, l).0 == pre + arith_tail("sub"@));
                assert(arith_code("and"@, e, f, t, l).0 == pre + arith_tail("and"@));
                assert(arith_code("or"@, e, f, t, l).0 == pre + arith_tail("or"@));
                assert(arith_code("lsl"@, e, f, t, l).0 == pre + arith_tail("lsl"@));
                assert(arith_code("lsr"@, e, f, t, l).0 == pre + arith_tail("lsr"@));
            },
            ExprV::BinEq(a, b) | ExprV::BinNEq(a, b) | ExprV::LE(a, b) | ExprV::GE(a, b)
            | ExprV::GT(a, b) | ExprV::LT(a, b) => {
                let la = expr_code(*a, f, t, l).1;
                let lb = expr_code(*b, f, t, la).1;
                let pre = expr_code(*a, f, t, l).0 + expr_code(*b, f, t, la).0 + pop_operands();
                let n = nat_text(lb as nat);
                assert forall|cond: Seq<char>| ends_line(pre + #[trigger] test_tail(cond, lb)) by {
                    lemma_ends_line_concat(
                        "skip 1 if"@ + cond + " r0 r1\njump eq_"@ + n + "_false\njump eq_"@ + n
                            + "_true\neq_"@ + n + "_true:\npush 1\njump eq_"@ + n + "_end\neq_"@
                            + n + "_false:\npush 0\njump eq_"@ + n + "_end\neq_"@ + n,
                        "_end:\n"@,
                    );
                    lemma_ends_line_concat(pre, test_tail(cond, lb));
                }
                assert(test_code("eq"@, e, f, t, l).0 == pre + test_tail("eq"@, lb));
                assert(test_code("ne"@, e, f, t, l).0 == pre + test_tail("ne"@, lb));
                assert(test_code("le"@, e, f, t, l).0 == pre + test_tail("le"@, lb));
                assert(test_code("ge"@, e, f, t, l).0 == pre + test_tail("ge"@, lb));
                assert(test_code("gt"@, e, f, t, l).0 == pre + test_tail("gt"@, lb));
                assert(test_code("lt"@, e, f, t, l).0 == pre + test_tail("lt"@, lb));
            },
            _ => {},
        }
    }
}

/// The label numbers that the tests of the comparisons in `e` are
/// written with (see [`test_tail`]), in the order of the code.
pub open spec fn expr_label_list(e: ExprV, f: Seq<char>, t: Seq<EntryV>, l: u64) -> Seq<u64>
    decreases e, 1nat,
{
    match e {
        ExprV::Call { args, .. } => args_label_list(args, f, t, l),
        ExprV::AddrOf(a) => match *a {
            ExprV::Deref(x) => expr_label_list(*x, f, t, l),
            _ => Seq::empty(),
        },
        ExprV::Deref(a) => expr_label_list(*a, f, t, l),
        ExprV::Add(a, b) | ExprV::Sub(a, b) | ExprV::And(a, b) | ExprV::Or(a, b)
        | ExprV::LShift(a, b) | ExprV::RShift(a, b) => {
            let la = expr_code(*a, f, t, l).1;
            expr_label_list(*a, f, t, l) + expr_label_list(*b, f, t, la)
        },
        ExprV::BinEq(a, b) | ExprV::BinNEq(a, b) | ExprV::LE(a, b) | ExprV::GE(a, b)
        | ExprV::GT(a, b) | ExprV::LT(a, b) => {
            let la = expr_code(*a, f, t, l).1;
            let lb = expr_code(*b, f, t, la).1;
            expr_label_list(*a, f, t, l) + expr_label_list(*b, f, t, la) + seq![lb]
        },
        _ => Seq::empty(),
    }
}

/// The label numbers of the comparisons in the arguments `s`, in the
/// order of the code (the last argument first).
pub open spec fn args_label_list(s: Seq<ExprV>, f: Seq<char>, t: Seq<EntryV>, l: u64) -> Seq<u64>
    decreases s,
{
    if s.len() == 0 {
        Seq::empty()
    } else {
        let l1 = expr_code(s.last(), f, t, l).1;
        expr_label_list(s.last(), f, t, l) + args_label_list(s.drop_last(), f, t, l1)
    }
}

/// The `k` consecutive label numbers from `l`.
pub open spec fn label_range(l: u64, k: nat) -> Seq<u64> {
    Seq::new(k, |i: int| (l + i) as u64)
}

/// Two consecutive ranges make one.
proof fn lemma_label_range_concat(l: u64, a: nat, b: nat)
    requires
        l + a + b <= u64::MAX,
    ensures
        label_range(l, a) + label_range((l + a) as u64, b) == label_range(l, a + b),
{
    assert(label_range(l, a) + label_range((l + a) as u64, b) =~= label_range(l, a + b));
}

proof fn lemma_expr_label_list(e: ExprV, f: Seq<char>, t: Seq<EntryV>, l: u64)
    requires
        l + expr_labels(e) <= u64::MAX,
    ensures
        expr_label_list(e, f, t, l) == label_range(l, expr_labels(e)),
    decreases e, 1nat,
{
    lemma_expr_labels(e, f, t, l);
    if e is Call {
        lemma_args_label_list(e->args, f, t, l);
    } else {
        match e {
            ExprV::AddrOf(a) => {
                match *a {
                    ExprV::Deref(x) => {
                        lemma_expr_label_list(*x, f, t, l);
                    },
                    _ => {
                        assert(label_range(l, 0) =~= Seq::<u64>::empty());
                    },
                }
            },
            ExprV::Deref(a) => {
                lemma_expr_label_list(*a, f, t, l);
            },
            ExprV::Add(a, b) | ExprV::Sub(a, b) | ExprV::And(a, b) | ExprV::Or(a, b)
            | ExprV::LShift(a, b) | ExprV::RShift(a, b) => {
                lemma_expr_labels(*a, f, t, l);
                let la = expr_code(*a, f, t, l).1;
                lemma_expr_label_list(*a, f, t, l);
                lemma_expr_label_list(*b, f, t, la);
                lemma_label_range_concat(l, expr_labels(*a), expr_labels(*b));
            },
            ExprV::BinEq(a, b) | ExprV::BinNEq(a, b) | ExprV::LE(a, b) | ExprV::GE(a, b)
            | ExprV::GT(a, b) | ExprV::LT(a, b) => {
                lemma_expr_labels(*a, f, t, l);
                let la = expr_code(*a, f, t, l).1;
                lemma_expr_labels(*b, f, t, la);
                lemma_expr_label_list(*a, f, t, l);
                lemma_expr_label_list(*b, f, t, la);
                lemma_label_range_concat(l, expr_labels(*a), expr_labels(*b));
                lemma_label_range_concat(l, expr_labels(*a) + expr_labels(*b), 1);
            },
            _ => {
                assert(label_range(l, 0) =~= Seq::<u64>::empty());
            },
        }
    }
}

proof fn lemma_args_label_list(s: Seq<ExprV>, f: Seq<char>, t: Seq<EntryV>, l: u64)
    requires
        l + args_labels(s) <= u64::MAX,
    ensures
        args_label_list(s, f, t, l) == label_range(l, args_labels(s)),
    decreases s, 0nat,
{
    if s.len() > 0 {
        lemma_expr_labels(s.last(), f, t, l);
        let l1 = expr_code(s.last(), f, t, l).1;
        lemma_expr_label_list(s.last(), f, t, l);
        lemma_args_label_list(s.drop_last(), f, t, l1);
        lemma_label_range_concat(l, expr_labels(s.last()), args_labels(s.drop_last()));
    } else {
        assert(label_range(l, 0) =~= Seq::<u64>::empty());
    }
}

/// Law: `compile_expr` writes whole lines, and the comparisons of the
/// expression take the labels `l`, `l + 1`, ..., one each, in the order
/// of the code: every label number lies in the range that the counter
/// moves over, and no two comparisons share one (unless the counter
/// wraps).
pub proof fn lemma_expr_code_shape(e: ExprV, f: Seq<char>, t: Seq<EntryV>, l: u64)
    requires
        expr_ok(e, f, t),
        l + expr_labels(e) <= u64::MAX,
    ensures
        ends_line(expr_code(e, f, t, l).0),
        expr_code(e, f, t, l).1 == l + expr_labels(e),
        expr_label_list(e, f, t, l) == label_range(l, expr_labels(e)),
{
    lemma_expr_ends_line(e, f, t, l);
    lemma_expr_labels(e, f, t, l);
    lemma_expr_label_list(e, f, t, l);
}

/// The code of a handled statement is a non-empty run of whole lines.
proof fn lemma_stmt_ends_line(s: StmtV, f: Seq<char>, t: Seq<EntryV>, l: u64)
    requires
        stmt_ok(s, f, t),
    ensures
        ends_line(stmt_code(s, f, t, l).0),
{
    reveal_strlit("pop r0\npop r1\npush r0\npush r1\nret\n");
    reveal_strlit("\nstore [r0] r1\n");
    reveal_strlit("store [r0] r1\n");
    reveal_strlit("_end:\n");
    reveal_strlit("pop r0 ; pop to not grow the stack\n");
    let c = stmt_code(s, f, t, l).0;
    match s {
        StmtV::Return(e) => {
            assert(c.last() == '\n');
        },
        StmtV::Decl { .. } => {
            assert(c.last() == '\n');
        },
        StmtV::Assign { .. } => {
            assert(c.last() == '\n');
        },
        StmtV::If { .. } => {
            assert(c.last() == '\n');
        },
        StmtV::While { .. } => {
            assert(c.last() == '\n');
        },
        StmtV::For { .. } => {},
        StmtV::Expr(e) => {
            assert(c.last() == '\n');
        },
    }
}

/// The code of handled statements is made of whole lines.
proof fn lemma_stmts_whole_lines(ss: Seq<StmtV>, f: Seq<char>, t: Seq<EntryV>, l: u64)
    requires
        stmts_ok(ss, f, t),
    ensures
        whole_lines(stmts_code(ss, f, t, l).0),
    decreases ss.len(),
{
    if ss.len() > 0 {
        lemma_stmt_ends_line(ss[0], f, t, l);
        let l1 = stmt_code(ss[0], f, t, l).1;
        let rest = ss.subrange(1, ss.len() as int);
        lemma_stmts_whole_lines(rest, f, t, l1);
        let c1 = stmt_code(ss[0], f, t, l).0;
        let c2 = stmts_code(rest, f, t, l1).0;
        if c2.len() > 0 {
            lemma_ends_line_concat(c1, c2);
        } else {
            assert(c1 + c2 =~= c1);
        }
    }
}

/// The label numbers that the `if`, `while` and comparisons of statement
/// `s` are written with, in the order of the code.
pub open spec fn stmt_label_list(s: StmtV, f: Seq<char>, t: Seq<EntryV>, l: u64) -> Seq<u64>
    decreases s,
{
    match s {
        StmtV::Return(e) => expr_label_list(e, f, t, l),
        StmtV::Decl { init, .. } => expr_label_list(init, f, t, l),
        StmtV::Assign { value, .. } => expr_label_list(value, f, t, l),
        StmtV::If { cond, body } => {
            let l1 = expr_code(cond, f, t, l).1;
            expr_label_list(cond, f, t, l) + seq![l1] + stmts_label_list(
                body,
                f,
                t,
                label_after(l1),
            )
        },
        StmtV::While { cond, body } => {
            let l1 = expr_code(cond, f, t, label_after(l)).1;
            seq![l] + expr_label_list(cond, f, t, label_after(l)) + stmts_label_list(body, f, t, l1)
        },
        StmtV::For { .. } => Seq::empty(),
        StmtV::Expr(e) => expr_label_list(e, f, t, l),
    }
}

/// The label numbers of the statements `ss`, in the order of the code.
pub open spec fn stmts_label_list(ss: Seq<StmtV>, f: Seq<char>, t: Seq<EntryV>, l: u64) -> Seq<
    u64,
>
    decreases ss,
{
    if ss.len() == 0 {
        Seq::empty()
    } else {
        let l1 = stmt_code(ss[0], f, t, l).1;
        stmt_label_list(ss[0], f, t, l) + stmts_label_list(ss.subrange(1, ss.len() as int), f, t, l1)
    }
}

proof fn lemma_stmt_label_list(s: StmtV, f: Seq<char>, t: Seq<EntryV>, l: u64)
    requires
        l + stmt_labels(s) <= u64::MAX,
    ensures
        stmt_label_list(s, f, t, l) == label_range(l, stmt_labels(s)),
    decreases s,
{
    match s {
        StmtV::Return(e) => lemma_expr_label_list(e, f, t, l),
        StmtV::Decl { init, .. } => lemma_expr_label_list(init, f, t, l),
        StmtV::Assign { value, .. } => lemma_expr_label_list(value, f, t, l),
        StmtV::If { cond, body } => {
            lemma_expr_labels(cond, f, t, l);
            lemma_expr_label_list(cond, f, t, l);
            let l1 = expr_code(cond, f, t, l).1;
            lemma_stmts_label_list(body, f, t, label_after(l1));
            lemma_label_range_concat(l, expr_labels(cond), 1);
            lemma_label_range_concat(l, expr_labels(cond) + 1, stmts_labels(body));
        },
        StmtV::While { cond, body } => {
            lemma_expr_labels(cond, f, t, label_after(l));
            lemma_expr_label_list(cond, f, t, label_after(l));
            let l1 = expr_code(cond, f, t, label_after(l)).1;
            lemma_stmts_label_list(body, f, t, l1);
            lemma_label_range_concat(l, 1, expr_labels(cond));
            lemma_label_range_concat(l, 1 + expr_labels(cond), stmts_labels(body));
        },
        StmtV::For { .. } => {
            assert(label_range(l, 0) =~= Seq::<u64>::empty());
        },
        StmtV::Expr(e) => lemma_expr_label_list(e, f, t, l),
    }
}

proof fn lemma_stmts_label_list(ss: Seq<StmtV>, f: Seq<char>, t: Seq<EntryV>, l: u64)
    requires
        l + stmts_labels(ss) <= u64::MAX,
    ensures
        stmts_label_list(ss, f, t, l) == label_range(l, stmts_labels(ss)),
    decreases ss,
{
    if ss.len() > 0 {
        lemma_stmt_labels(ss[0], f, t, l);
        lemma_stmt_label_list(ss[0], f, t, l);
        let l1 = stmt_code(ss[0], f, t, l).1;
        let rest = ss.subrange(1, ss.len() as int);
        lemma_stmts_label_list(rest, f, t, l1);
        lemma_label_range_concat(l, stmt_labels(ss[0]), stmts_labels(rest));
    } else {
        assert(label_range(l, 0) =~= Seq::<u64>::empty());
    }
}

/// Law: `compile_stmt` writes whole lines, and the `if`, `while` and
/// comparisons of the statement take the labels `l`, `l + 1`, ..., one
/// each, in the order of the code: every label number lies in the range
/// that the counter moves over, and no two constructs share one (unless
/// the counter wraps).
pub proof fn lemma_stmt_code_shape(s: StmtV, f: Seq<char>, t: Seq<EntryV>, l: u64)
    requires
        stmt_ok(s, f, t),
        l + stmt_labels(s) <= u64::MAX,
    ensures
        ends_line(stmt_code(s, f, t, l).0),
        stmt_code(s, f, t, l).1 == l + stmt_labels(s),
        stmt_label_list(s, f, t, l) == label_range(l, stmt_labels(s)),
{
    lemma_stmt_ends_line(s, f, t, l);
    lemma_stmt_labels(s, f, t, l);
    lemma_stmt_label_list(s, f, t, l);
}

/// Law: the same of a sequence of statements, as `compile_body` writes
/// them: whole lines, and consecutive labels from `l`, one per construct.
pub proof fn lemma_stmts_code_shape(ss: Seq<StmtV>, f: Seq<char>, t: Seq<EntryV>, l: u64)
    requires
        stmts_ok(ss, f, t),
        l + stmts_labels(ss) <= u64::MAX,
    ensures
        whole_lines(stmts_code(ss, f, t, l).0),
        stmts_code(ss, f, t, l).1 == l + stmts_labels(ss),
        stmts_label_list(ss, f, t, l) == label_range(l, stmts_labels(ss)),
{
    lemma_stmts_whole_lines(ss, f, t, l);
    lemma_stmts_labels(ss, f, t, l);
    lemma_stmts_label_list(ss, f, t, l);
}

/// Statements are handled exactly when each of them is.
pub proof fn lemma_stmts_ok_each(ss: Seq<StmtV>, f: Seq<char>, t: Seq<EntryV>)
    ensures
        stmts_ok(ss, f, t) <==> forall|i: int| 0 <= i < ss.len() ==> stmt_ok(#[trigger] ss[i], f, t),
    decreases ss.len(),
{
    if ss.len() > 0 {
        let rest = ss.subrange(1, ss.len() as int);
        lemma_stmts_ok_each(rest, f, t);
        if stmts_ok(ss, f, t) {
            assert forall|i: int| 0 <= i < ss.len() implies stmt_ok(#[trigger] ss[i], f, t) by {
                if i > 0 {
                    assert(ss[i] == rest[i - 1]);
                }
            }
        }
        if forall|i: int| 0 <= i < ss.len() ==> stmt_ok(#[trigger] ss[i], f, t) {
            assert forall|i: int| 0 <= i < rest.len() implies stmt_ok(#[trigger] rest[i], f, t) by {
                assert(rest[i] == ss[i + 1]);
            }
            assert(stmt_ok(ss[0], f, t));
        }
    }
}

/// Law: a `while` loop is handled exactly when an `if` with the same
/// condition and body is, and that is exactly when its condition is
/// handled and every statement of its body is.
pub proof fn lemma_loop_handled(cond: ExprV, body: Seq<StmtV>, f: Seq<char>, t: Seq<EntryV>)
    ensures
        stmt_ok(StmtV::While { cond, body }, f, t) == stmt_ok(StmtV::If { cond, body }, f, t),
        stmt_ok(StmtV::While { cond, body }, f, t) <==> (expr_ok(cond, f, t) && forall|i: int|
            0 <= i < body.len() ==> stmt_ok(#[trigger] body[i], f, t)),
{
    lemma_stmts_ok_each(body, f, t);
}

/// `k` stars in front of variable `n`.
pub open spec fn deref_chain(k: nat, n: Seq<char>) -> ExprV
    decreases k,
{
    if k == 0 {
        ExprV::Var(n)
    } else {
        ExprV::Deref(Box::new(deref_chain((k - 1) as nat, n)))
    }
}

/// `k` loads through `r0`.
pub open spec fn loads(k: nat) -> Seq<char>
    decreases k,
{
    if k == 0 {
        Seq::empty()
    } else {
        loads((k - 1) as nat) + "load r0 [r0]\n"@
    }
}

/// Law: an assignment target is reached by taking the address of its
/// variable and following one pointer per star: the target `*...*n` with
/// `k` stars is handled exactly when `n` is declared, and its address
/// code is a copy of `n`'s address followed by `k` loads. In particular
/// a dereference adds exactly one load to the code of its operand.
pub proof fn lemma_target_loads(k: nat, n: Seq<char>, x: ExprV, f: Seq<char>, t: Seq<EntryV>)
    ensures
        lvalue_ok(deref_chain(k, n), f, t) == declared(t, f, n),
        lvalue_code(deref_chain(k, n), f, t) == "copy r0 "@ + nat_text(addr_of(t, f, n) as nat) + "\n"@
            + loads(k),
        lvalue_code(ExprV::Deref(Box::new(x)), f, t) == lvalue_code(x, f, t) + "load r0 [r0]\n"@,
    decreases k,
{
    if k > 0 {
        lemma_target_loads((k - 1) as nat, n, x, f, t);
        assert(lvalue_code(deref_chain(k, n), f, t) =~= "copy r0 "@ + nat_text(addr_of(t, f, n) as nat)
            + "\n"@ + loads(k));
    } else {
        assert(lvalue_code(deref_chain(k, n), f, t) =~= "copy r0 "@ + nat_text(addr_of(t, f, n) as nat)
            + "\n"@ + loads(k));
    }
}

/// The blocks that take the parameters `ps` off the stack, the first
/// parameter first.
pub open spec fn param_blocks(ps: Seq<(Type, Seq<char>)>, f: Seq<char>, t: Seq<EntryV>) -> Seq<char>
    decreases ps.len(),
{
    if ps.len() == 0 {
        Seq::empty()
    } else {
        param_text(ps[0].1, addr_of(t, f, ps[0].1)) + param_blocks(ps.skip(1), f, t)
    }
}

proof fn lemma_param_blocks_last(ps: Seq<(Type, Seq<char>)>, f: Seq<char>, t: Seq<EntryV>)
    requires
        ps.len() > 0,
    ensures
        param_blocks(ps, f, t) == param_blocks(ps.drop_last(), f, t) + param_text(
            ps.last().1,
            addr_of(t, f, ps.last().1),
        ),
    decreases ps.len(),
{
    if ps.len() == 1 {
        assert(ps.skip(1) =~= Seq::<(Type, Seq<char>)>::empty());
        assert(ps.drop_last() =~= Seq::<(Type, Seq<char>)>::empty());
        assert(param_blocks(ps.skip(1), f, t) == Seq::<char>::empty());
        assert(param_blocks(ps.drop_last(), f, t) == Seq::<char>::empty());
        assert(ps[0] == ps.last());
        assert(param_blocks(ps, f, t) =~= param_text(ps.last().1, addr_of(t, f, ps.last().1)));
    } else {
        lemma_param_blocks_last(ps.skip(1), f, t);
        assert(ps.skip(1).drop_last() =~= ps.drop_last().skip(1));
        assert(ps.skip(1).last() == ps.last());
        assert(ps.drop_last()[0] == ps[0]);
        assert(param_blocks(ps, f, t) =~= param_blocks(ps.drop_last(), f, t) + param_text(
            ps.last().1,
            addr_of(t, f, ps.last().1),
        ));
    }
}

/// Law: the parameter handling of a function has a heading and then one
/// block per parameter, in order: each pops the argument under the return
/// address and stores it at the parameter's address. Joining two lists of
/// parameters joins their blocks.
pub proof fn lemma_params_blocks(
    ps: Seq<(Type, Seq<char>)>,
    qs: Seq<(Type, Seq<char>)>,
    f: Seq<char>,
    t: Seq<EntryV>,
)
    ensures
        params_text(ps, f, t) == "; params handling\n"@ + param_blocks(ps, f, t),
        param_blocks(ps + qs, f, t) == param_blocks(ps, f, t) + param_blocks(qs, f, t),
    decreases ps.len(),
{
    if ps.len() > 0 {
        lemma_params_blocks(ps.drop_last(), qs, f, t);
        lemma_param_blocks_last(ps, f, t);
        assert(params_text(ps, f, t) =~= "; params handling\n"@ + param_blocks(ps, f, t));
        lemma_params_blocks(ps.skip(1), qs, f, t);
        assert((ps + qs).skip(1) =~= ps.skip(1) + qs);
        assert((ps + qs)[0] == ps[0]);
        assert(param_blocks(ps + qs, f, t) =~= param_blocks(ps, f, t) + param_blocks(qs, f, t));
    } else {
        assert(ps + qs =~= qs);
        assert(param_blocks(ps, f, t) + param_blocks(qs, f, t) =~= param_blocks(qs, f, t));
    }
}

/// Law: every binary operator is handled alike: a binary expression is
/// handled exactly when both its operands are, whatever the operator,
/// and its code takes the labels of its operands plus one for a
/// comparison.
pub proof fn lemma_binary_handled(a: ExprV, b: ExprV, f: Seq<char>, t: Seq<EntryV>)
    ensures
        forall|e: ExprV|
            e == ExprV::Add(Box::new(a), Box::new(b)) || e == ExprV::Sub(Box::new(a), Box::new(b))
                || e == ExprV::And(Box::new(a), Box::new(b)) || e == ExprV::Or(Box::new(a), Box::new(b))
                || e == ExprV::LShift(Box::new(a), Box::new(b)) || e == ExprV::RShift(
                Box::new(a),
                Box::new(b),
            ) ==> (#[trigger] expr_ok(e, f, t) == (expr_ok(a, f, t) && expr_ok(b, f, t))
                && expr_labels(e) == expr_labels(a) + expr_labels(b)),
        forall|e: ExprV|
            e == ExprV::BinEq(Box::new(a), Box::new(b)) || e == ExprV::BinNEq(Box::new(a), Box::new(b))
                || e == ExprV::LE(Box::new(a), Box::new(b)) || e == ExprV::GE(Box::new(a), Box::new(b))
                || e == ExprV::GT(Box::new(a), Box::new(b)) || e == ExprV::LT(Box::new(a), Box::new(b))
                ==> (#[trigger] expr_ok(e, f, t) == (expr_ok(a, f, t) && expr_ok(b, f, t))
                && expr_labels(e) == expr_labels(a) + expr_labels(b) + 1),
{
}

} // verus!
