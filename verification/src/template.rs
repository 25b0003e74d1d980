//! Label templates: the code of an expression, a statement or a
//! function body is a fixed sequence of pieces, text and label holes,
//! that does not depend on where the label counter stands. The counter
//! only fills the holes: hole `k` gets the numeral of label `l + k`.

use vstd::prelude::*;
use crate::ast::{ExprV, FunctionV, ProgramV, StmtV};
use crate::text::{nat_text, int_text, expr_debug, indent_lines};
use crate::vars::EntryV;
use crate::compile::{addr_of, pop_operands, arith_tail, test_tail, arith_code, test_code, expr_code, args_code, stmt_code, stmts_code, lvalue_code, params_text, body_tail, functions_code, program_code, prologue, epilogue, expr_labels, args_labels, stmt_labels, stmts_labels, functions_labels, lemma_expr_labels, lemma_args_labels, lemma_stmt_labels, lemma_stmts_labels, lemma_program_labels};

verus! {

/// A piece of code whose text holds a label numeral `n`.
pub enum Snippet {
    /// The test that ends a comparison with condition `cond`.
    Test(Seq<char>),
    /// The jumps after the condition of an `if`, and its `true` label.
    IfHead,
    /// The jumps and labels after the body of an `if`.
    IfEnd,
    /// The comment and the check label that start a `while` (its
    /// condition shown in `Debug` notation).
    WhileHead(Seq<char>),
    /// The jumps after the condition of a `while`, and its `true` label.
    WhileMid,
    /// The jump back and the end label after the body of a `while`.
    WhileEnd,
}

/// The text of a snippet with the label numeral `n`.
pub open spec fn snippet_text(sn: Snippet, n: Seq<char>) -> Seq<char> {
    match sn {
        Snippet::Test(cond) => "skip 1 if"@ + cond + " r0 r1\njump eq_"@ + n + "_false\njump eq_"@ + n
            + "_true\neq_"@ + n + "_true:\npush 1\njump eq_"@ + n + "_end\neq_"@ + n
            + "_false:\npush 0\njump eq_"@ + n + "_end\neq_"@ + n + "_end:\n"@,
        Snippet::IfHead => "pop r0\nskip 1 ifeq r0 0\njump if_"@ + n + "_true\njump if_"@ + n
            + "_false\nif_"@ + n + "_true:\n"@,
        Snippet::IfEnd => "jump if_"@ + n + "_end\nif_"@ + n + "_false:\njump if_"@ + n + "_end\nif_"@
            + n + "_end:\n"@,
        Snippet::WhileHead(dbg) => "; while ("@ + dbg + ")\nwhile_"@ + n + "_check:\n"@,
        Snippet::WhileMid => "pop r0\nskip 1 ifeq r0 0\njump while_"@ + n + "_true\njump while_"@ + n
            + "_end\nwhile_"@ + n + "_true:\n"@,
        Snippet::WhileEnd => "jump while_"@ + n + "_check\nwhile_"@ + n + "_end:\n"@,
    }
}

/// A piece of a template: fixed text, or a snippet whose label is the
/// `k`-th one taken from where the counter starts.
pub enum Piece {
    Text(Seq<char>),
    Hole(Snippet, nat),
}

/// The text of a piece when the counter starts at `l`.
pub open spec fn piece_text(p: Piece, l: nat) -> Seq<char> {
    match p {
        Piece::Text(x) => x,
        Piece::Hole(sn, k) => snippet_text(sn, nat_text(l + k)),
    }
}

/// The text of a template when the counter starts at `l`.
pub open spec fn render(ps: Seq<Piece>, l: nat) -> Seq<char>
    decreases ps.len(),
{
    if ps.len() == 0 {
        Seq::empty()
    } else {
        render(ps.drop_last(), l) + piece_text(ps.last(), l)
    }
}

/// A piece whose label comes `k` places later.
pub open spec fn shift_piece(p: Piece, k: nat) -> Piece {
    match p {
        Piece::Text(x) => Piece::Text(x),
        Piece::Hole(sn, i) => Piece::Hole(sn, i + k),
    }
}

/// A template whose labels all come `k` places later.
pub open spec fn shift(ps: Seq<Piece>, k: nat) -> Seq<Piece> {
    Seq::new(ps.len(), |i: int| shift_piece(ps[i], k))
}

/// A template of one text piece.
pub open spec fn txt(x: Seq<char>) -> Seq<Piece> {
    seq![Piece::Text(x)]
}

/// A template of one snippet with label `k`.
pub open spec fn hole(sn: Snippet, k: nat) -> Seq<Piece> {
    seq![Piece::Hole(sn, k)]
}

proof fn lemma_render_concat(a: Seq<Piece>, b: Seq<Piece>, l: nat)
    ensures
        render(a + b, l) == render(a, l) + render(b, l),
    decreases b.len(),
{
    if b.len() == 0 {
        assert(a + b =~= a);
        assert(render(a, l) + render(b, l) =~= render(a, l));
    } else {
        assert((a + b).drop_last() =~= a + b.drop_last());
        assert((a + b).last() == b.last());
        lemma_render_concat(a, b.drop_last(), l);
        assert(render(a + b, l) =~= render(a, l) + render(b, l));
    }
}

proof fn lemma_render_one(p: Piece, l: nat)
    ensures
        render(seq![p], l) == piece_text(p, l),
{
    assert(seq![p].drop_last() =~= Seq::<Piece>::empty());
    assert(render(Seq::<Piece>::empty(), l) == Seq::<char>::empty());
    assert(seq![p].last() == p);
    assert(Seq::<char>::empty() + piece_text(p, l) =~= piece_text(p, l));
}

proof fn lemma_render_shift(ps: Seq<Piece>, k: nat, l: nat)
    ensures
        render(shift(ps, k), l) == render(ps, l + k),
    decreases ps.len(),
{
    if ps.len() > 0 {
        assert(shift(ps, k).drop_last() =~= shift(ps.drop_last(), k));
        lemma_render_shift(ps.drop_last(), k, l);
        assert(l + (ps.last()->Hole_1 + k) == (l + k) + ps.last()->Hole_1);
    }
}

/// The template of the code of expression `e` (see [`expr_code`]).
pub open spec fn expr_tmpl(e: ExprV, f: Seq<char>, t: Seq<EntryV>) -> Seq<Piece>
    decreases e, 1nat,
{
    match e {
        ExprV::Int(i) => txt("let r0 "@ + int_text(i as int) + "\npush r0\n"@),
        ExprV::Var(n) => txt(
            "copy r0 "@ + nat_text(addr_of(t, f, n) as nat) + "\nload r1 [r0]\npush r1\n"@,
        ),
        ExprV::Call { name, args } => args_tmpl(args, f, t) + txt("call "@ + name + "\n"@),
        ExprV::AddrOf(a) => match *a {
            ExprV::Var(n) => txt("push "@ + nat_text(addr_of(t, f, n) as nat) + "\n"@),
            ExprV::Deref(x) => expr_tmpl(*x, f, t),
            _ => Seq::empty(),
        },
        ExprV::Deref(a) => expr_tmpl(*a, f, t) + txt("pop r0\nload r1 [r0]\npush r1\n"@),
        ExprV::Add(a, b) => expr_tmpl(*a, f, t) + shift(expr_tmpl(*b, f, t), expr_labels(*a)) + txt(
            pop_operands() + arith_tail("add"@),
        ),
        ExprV::Sub(a, b) => expr_tmpl(*a, f, t) + shift(expr_tmpl(*b, f, t), expr_labels(*a)) + txt(
            pop_operands() + arith_tail("sub"@),
        ),
        ExprV::And(a, b) => expr_tmpl(*a, f, t) + shift(expr_tmpl(*b, f, t), expr_labels(*a)) + txt(
            pop_operands() + arith_tail("and"@),
        ),
        ExprV::Or(a, b) => expr_tmpl(*a, f, t) + shift(expr_tmpl(*b, f, t), expr_labels(*a)) + txt(
            pop_operands() + arith_tail("or"@),
        ),
        ExprV::LShift(a, b) => expr_tmpl(*a, f, t) + shift(expr_tmpl(*b, f, t), expr_labels(*a)) + txt(
            pop_operands() + arith_tail("lsl"@),
        ),
        ExprV::RShift(a, b) => expr_tmpl(*a, f, t) + shift(expr_tmpl(*b, f, t), expr_labels(*a)) + txt(
            pop_operands() + arith_tail("lsr"@),
        ),
        ExprV::BinEq(a, b) => expr_tmpl(*a, f, t) + shift(expr_tmpl(*b, f, t), expr_labels(*a)) + txt(
            pop_operands(),
        ) + hole(Snippet::Test("eq"@), expr_labels(*a) + expr_labels(*b)),
        ExprV::BinNEq(a, b) => expr_tmpl(*a, f, t) + shift(expr_tmpl(*b, f, t), expr_labels(*a)) + txt(
            pop_operands(),
        ) + hole(Snippet::Test("ne"@), expr_labels(*a) + expr_labels(*b)),
        ExprV::LE(a, b) => expr_tmpl(*a, f, t) + shift(expr_tmpl(*b, f, t), expr_labels(*a)) + txt(
            pop_operands(),
        ) + hole(Snippet::Test("le"@), expr_labels(*a) + expr_labels(*b)),
        ExprV::GE(a, b) => expr_tmpl(*a, f, t) + shift(expr_tmpl(*b, f, t), expr_labels(*a)) + txt(
            pop_operands(),
        ) + hole(Snippet::Test("ge"@), expr_labels(*a) + expr_labels(*b)),
        ExprV::GT(a, b) => expr_tmpl(*a, f, t) + shift(expr_tmpl(*b, f, t), expr_labels(*a)) + txt(
            pop_operands(),
        ) + hole(Snippet::Test("gt"@), expr_labels(*a) + expr_labels(*b)),
        ExprV::LT(a, b) => expr_tmpl(*a, f, t) + shift(expr_tmpl(*b, f, t), expr_labels(*a)) + txt(
            pop_operands(),
        ) + hole(Snippet::Test("lt"@), expr_labels(*a) + expr_labels(*b)),
        ExprV::Str(_) => Seq::empty(),
        ExprV::ArrayLit(_) => Seq::empty(),
    }
}

/// The template of the code of the arguments `s` (see [`args_code`]).
pub open spec fn args_tmpl(s: Seq<ExprV>, f: Seq<char>, t: Seq<EntryV>) -> Seq<Piece>
    decreases s,
{
    if s.len() == 0 {
        Seq::empty()
    } else {
        expr_tmpl(s.last(), f, t) + shift(args_tmpl(s.drop_last(), f, t), expr_labels(s.last()))
    }
}

proof fn lemma_text3(a: Seq<Piece>, b: Seq<Piece>, c: Seq<Piece>, l: nat)
    ensures
        render(a + b + c, l) == render(a, l) + render(b, l) + render(c, l),
{
    lemma_render_concat(a + b, c, l);
    lemma_render_concat(a, b, l);
}

/// The code of an expression is its template with the holes filled from
/// `l` (unless the counter wraps).
proof fn lemma_expr_tmpl(e: ExprV, f: Seq<char>, t: Seq<EntryV>, l: u64)
    requires
        l + expr_labels(e) <= u64::MAX,
    ensures
        expr_code(e, f, t, l).0 == render(expr_tmpl(e, f, t), l as nat),
    decreases e, 1nat,
{
    lemma_expr_labels(e, f, t, l);
    if e is Call {
        lemma_args_tmpl(e->args, f, t, l);
        lemma_render_concat(args_tmpl(e->args, f, t), txt("call "@ + e->name + "\n"@), l as nat);
        lemma_render_one(Piece::Text("call "@ + e->name + "\n"@), l as nat);
    } else {
        match e {
            ExprV::Int(i) => {
                lemma_render_one(Piece::Text("let r0 "@ + int_text(i as int) + "\npush r0\n"@), l as nat);
            },
            ExprV::Var(n) => {
                lemma_render_one(
                    Piece::Text(
                        "copy r0 "@ + nat_text(addr_of(t, f, n) as nat) + "\nload r1 [r0]\npush r1\n"@,
                    ),
                    l as nat,
                );
            },
            ExprV::AddrOf(a) => {
                match *a {
                    ExprV::Var(n) => {
                        lemma_render_one(
                            Piece::Text("push "@ + nat_text(addr_of(t, f, n) as nat) + "\n"@),
                            l as nat,
                        );
                    },
                    ExprV::Deref(x) => {
                        lemma_expr_tmpl(*x, f, t, l);
                    },
                    _ => {},
                }
            },
            ExprV::Deref(a) => {
                lemma_expr_tmpl(*a, f, t, l);
                lemma_render_concat(expr_tmpl(*a, f, t), txt("pop r0\nload r1 [r0]\npush r1\n"@), l as nat);
                lemma_render_one(Piece::Text("pop r0\nload r1 [r0]\npush r1\n"@), l as nat);
            },
            ExprV::Add(a, b) | ExprV::Sub(a, b) | ExprV::And(a, b) | ExprV::Or(a, b)
            | ExprV::LShift(a, b) | ExprV::RShift(a, b) => {
                lemma_arith_tmpl(e, *a, *b, f, t, l);
            },
            ExprV::BinEq(a, b) | ExprV::BinNEq(a, b) | ExprV::LE(a, b) | ExprV::GE(a, b)
            | ExprV::GT(a, b) | ExprV::LT(a, b) => {
                lemma_test_tmpl(e, *a, *b, f, t, l);
            },
            _ => {},
        }
    }
}

/// The arithmetic case of [`lemma_expr_tmpl`].
proof fn lemma_arith_tmpl(e: ExprV, a: ExprV, b: ExprV, f: Seq<char>, t: Seq<EntryV>, l: u64)
    requires
        l + expr_labels(e) <= u64::MAX,
        e == ExprV::Add(Box::new(a), Box::new(b)) || e == ExprV::Sub(Box::new(a), Box::new(b))
            || e == ExprV::And(Box::new(a), Box::new(b)) || e == ExprV::Or(Box::new(a), Box::new(b))
            || e == ExprV::LShift(Box::new(a), Box::new(b)) || e == ExprV::RShift(
            Box::new(a),
            Box::new(b),
        ),
    ensures
        expr_code(e, f, t, l).0 == render(expr_tmpl(e, f, t), l as nat),
    decreases e, 0nat,
{
    lemma_expr_labels(a, f, t, l);
    let la = expr_code(a, f, t, l).1;
    lemma_expr_tmpl(a, f, t, l);
    lemma_expr_tmpl(b, f, t, la);
    lemma_render_shift(expr_tmpl(b, f, t), expr_labels(a), l as nat);
    let ca = expr_code(a, f, t, l).0;
    let cb = expr_code(b, f, t, la).0;
    assert forall|op: Seq<char>| render(
        expr_tmpl(a, f, t) + shift(expr_tmpl(b, f, t), expr_labels(a)) + txt(
            pop_operands() + arith_tail(op),
        ),
        l as nat,
    ) == ca + cb + pop_operands() + #[trigger] arith_tail(op) by {
        lemma_text3(
            expr_tmpl(a, f, t),
            shift(expr_tmpl(b, f, t), expr_labels(a)),
            txt(pop_operands() + arith_tail(op)),
            l as nat,
        );
        lemma_render_one(Piece::Text(pop_operands() + arith_tail(op)), l as nat);
        assert(ca + cb + (pop_operands() + arith_tail(op)) =~= ca + cb + pop_operands() + arith_tail(op));
    }
        assert(arith_code("add"@, e, f, t, l).0 == ca + cb + pop_operands() + arith_tail("add"@));
        assert(arith_code("sub"@, e, f, t, l).0 == ca + cb + pop_operands() + arith_tail("sub"@));
        assert(arith_code("and"@, e, f, t, l).0 == ca + cb + pop_operands() + arith_tail("and"@));
        assert(arith_code("or"@, e, f, t, l).0 == ca + cb + pop_operands() + arith_tail("or"@));
        assert(arith_code("lsl"@, e, f, t, l).0 == ca + cb + pop_operands() + arith_tail("lsl"@));
        assert(arith_code("lsr"@, e, f, t, l).0 == ca + cb + pop_operands() + arith_tail("lsr"@));
}

/// The comparison case of [`lemma_expr_tmpl`].
proof fn lemma_test_tmpl(e: ExprV, a: ExprV, b: ExprV, f: Seq<char>, t: Seq<EntryV>, l: u64)
    requires
        l + expr_labels(e) <= u64::MAX,
        e == ExprV::BinEq(Box::new(a), Box::new(b)) || e == ExprV::BinNEq(Box::new(a), Box::new(b))
            || e == ExprV::LE(Box::new(a), Box::new(b)) || e == ExprV::GE(Box::new(a), Box::new(b))
            || e == ExprV::GT(Box::new(a), Box::new(b)) || e == ExprV::LT(Box::new(a), Box::new(b)),
    ensures
        expr_code(e, f, t, l).0 == render(expr_tmpl(e, f, t), l as nat),
    decreases e, 0nat,
{
    lemma_expr_labels(a, f, t, l);
    let la = expr_code(a, f, t, l).1;
    lemma_expr_labels(b, f, t, la);
    let lb = expr_code(b, f, t, la).1;
    lemma_expr_tmpl(a, f, t, l);
    lemma_expr_tmpl(b, f, t, la);
    lemma_render_shift(expr_tmpl(b, f, t), expr_labels(a), l as nat);
    let ca = expr_code(a, f, t, l).0;
    let cb = expr_code(b, f, t, la).0;
    let k = expr_labels(a) + expr_labels(b);
    assert(lb == l + k);
    assert forall|cond: Seq<char>| render(
        expr_tmpl(a, f, t) + shift(expr_tmpl(b, f, t), expr_labels(a)) + txt(pop_operands())
            + hole(Snippet::Test(cond), k),
        l as nat,
    ) == ca + cb + pop_operands() + #[trigger] test_tail(cond, lb) by {
        let x = expr_tmpl(a, f, t) + shift(expr_tmpl(b, f, t), expr_labels(a));
        lemma_render_concat(x, txt(pop_operands()), l as nat);
        lemma_render_concat(x + txt(pop_operands()), hole(Snippet::Test(cond), k), l as nat);
        lemma_render_concat(expr_tmpl(a, f, t), shift(expr_tmpl(b, f, t), expr_labels(a)), l as nat);
        lemma_render_one(Piece::Text(pop_operands()), l as nat);
        lemma_render_one(Piece::Hole(Snippet::Test(cond), k), l as nat);
        assert((l as nat) + k == lb as nat);
    }
        assert(test_code("eq"@, e, f, t, l).0 == ca + cb + pop_operands() + test_tail("eq"@, lb));
        assert(test_code("ne"@, e, f, t, l).0 == ca + cb + pop_operands() + test_tail("ne"@, lb));
        assert(test_code("le"@, e, f, t, l).0 == ca + cb + pop_operands() + test_tail("le"@, lb));
        assert(test_code("ge"@, e, f, t, l).0 == ca + cb + pop_operands() + test_tail("ge"@, lb));
        assert(test_code("gt"@, e, f, t, l).0 == ca + cb + pop_operands() + test_tail("gt"@, lb));
        assert(test_code("lt"@, e, f, t, l).0 == ca + cb + pop_operands() + test_tail("lt"@, lb));
}

proof fn lemma_args_tmpl(s: Seq<ExprV>, f: Seq<char>, t: Seq<EntryV>, l: u64)
    requires
        l + args_labels(s) <= u64::MAX,
    ensures
        args_code(s, f, t, l).0 == render(args_tmpl(s, f, t), l as nat),
    decreases s, 0nat,
{
    lemma_args_labels(s, f, t, l);
    if s.len() == 0 {
    } else {
        lemma_expr_labels(s.last(), f, t, l);
        let l1 = expr_code(s.last(), f, t, l).1;
        lemma_expr_tmpl(s.last(), f, t, l);
        lemma_args_tmpl(s.drop_last(), f, t, l1);
        lemma_render_shift(args_tmpl(s.drop_last(), f, t), expr_labels(s.last()), l as nat);
        lemma_render_concat(
            expr_tmpl(s.last(), f, t),
            shift(args_tmpl(s.drop_last(), f, t), expr_labels(s.last())),
            l as nat,
        );
    }
}

/// The template of the code of statement `s` (see [`stmt_code`]).
pub open spec fn stmt_tmpl(s: StmtV, f: Seq<char>, t: Seq<EntryV>) -> Seq<Piece>
    decreases s,
{
    match s {
        StmtV::Return(e) => txt("; return "@ + expr_debug(e) + "\n"@) + expr_tmpl(e, f, t) + txt(
            "pop r0\npop r1\npush r0\npush r1\nret\n"@,
        ),
        StmtV::Decl { ty, name, init } => txt(
            "; u32 "@ + name + " = "@ + expr_debug(init) + "\n"@,
        ) + expr_tmpl(init, f, t) + txt(
            "copy r0 "@ + nat_text(addr_of(t, f, name) as nat)
                + "\npop r1 ; the stack contains the value of "@ + name + "\nstore [r0] r1\n"@,
        ),
        StmtV::Assign { target, value } => txt(
            "; "@ + expr_debug(target) + " = "@ + expr_debug(value) + "\n"@,
        ) + expr_tmpl(value, f, t) + txt(
            "pop r1 ; the stack contains the value of "@ + expr_debug(target) + "\n"@
                + lvalue_code(target, f, t) + "store [r0] r1\n"@,
        ),
        StmtV::If { cond, body } => {
            let k = expr_labels(cond);
            txt("; if ("@ + expr_debug(cond) + ")\n"@) + expr_tmpl(cond, f, t) + hole(
                Snippet::IfHead,
                k,
            ) + shift(stmts_tmpl(body, f, t), k + 1) + hole(Snippet::IfEnd, k)
        },
        StmtV::While { cond, body } => hole(Snippet::WhileHead(expr_debug(cond)), 0) + shift(
            expr_tmpl(cond, f, t),
            1,
        ) + hole(Snippet::WhileMid, 0) + shift(stmts_tmpl(body, f, t), 1 + expr_labels(cond))
            + hole(Snippet::WhileEnd, 0),
        StmtV::For { .. } => Seq::empty(),
        StmtV::Expr(e) => txt("; raw expr ("@ + expr_debug(e) + ")\n"@) + expr_tmpl(e, f, t) + txt(
            "pop r0 ; pop to not grow the stack\n"@,
        ),
    }
}

/// The template of the code of the statements `ss` (see [`stmts_code`]).
pub open spec fn stmts_tmpl(ss: Seq<StmtV>, f: Seq<char>, t: Seq<EntryV>) -> Seq<Piece>
    decreases ss,
{
    if ss.len() == 0 {
        Seq::empty()
    } else {
        stmt_tmpl(ss[0], f, t) + shift(
            stmts_tmpl(ss.subrange(1, ss.len() as int), f, t),
            stmt_labels(ss[0]),
        )
    }
}

proof fn lemma_wrap(a: Seq<char>, x: Seq<Piece>, b: Seq<char>, l: nat)
    ensures
        render(txt(a) + x + txt(b), l) == a + render(x, l) + b,
{
    lemma_text3(txt(a), x, txt(b), l);
    lemma_render_one(Piece::Text(a), l);
    lemma_render_one(Piece::Text(b), l);
}

proof fn lemma_render5(a: Seq<Piece>, b: Seq<Piece>, c: Seq<Piece>, d: Seq<Piece>, e: Seq<Piece>, l: nat)
    ensures
        render(a + b + c + d + e, l) == render(a, l) + render(b, l) + render(c, l) + render(d, l)
            + render(e, l),
{
    lemma_render_concat(a + b + c + d, e, l);
    lemma_render_concat(a + b + c, d, l);
    lemma_text3(a, b, c, l);
}

/// The code of a statement is its template with the holes filled from
/// `l` (unless the counter wraps).
proof fn lemma_stmt_tmpl(s: StmtV, f: Seq<char>, t: Seq<EntryV>, l: u64)
    requires
        l + stmt_labels(s) <= u64::MAX,
    ensures
        stmt_code(s, f, t, l).0 == render(stmt_tmpl(s, f, t), l as nat),
    decreases s, 0nat,
{
    let c = stmt_code(s, f, t, l).0;
    match s {
        StmtV::Return(e) => {
            lemma_expr_tmpl(e, f, t, l);
            let a = "; return "@ + expr_debug(e) + "\n"@;
            let b = "pop r0\npop r1\npush r0\npush r1\nret\n"@;
            lemma_wrap(a, expr_tmpl(e, f, t), b, l as nat);
        },
        StmtV::Decl { ty, name, init } => {
            lemma_expr_tmpl(init, f, t, l);
            let a = "; u32 "@ + name + " = "@ + expr_debug(init) + "\n"@;
            let b = "copy r0 "@ + nat_text(addr_of(t, f, name) as nat)
                + "\npop r1 ; the stack contains the value of "@ + name + "\nstore [r0] r1\n"@;
            lemma_wrap(a, expr_tmpl(init, f, t), b, l as nat);
            assert(c =~= a + expr_code(init, f, t, l).0 + b);
        },
        StmtV::Assign { target, value } => {
            lemma_expr_tmpl(value, f, t, l);
            let a = "; "@ + expr_debug(target) + " = "@ + expr_debug(value) + "\n"@;
            let b = "pop r1 ; the stack contains the value of "@ + expr_debug(target) + "\n"@
                + lvalue_code(target, f, t) + "store [r0] r1\n"@;
            lemma_wrap(a, expr_tmpl(value, f, t), b, l as nat);
            assert(c =~= a + expr_code(value, f, t, l).0 + b);
        },
        StmtV::If { cond, body } => {
            lemma_if_tmpl(cond, body, f, t, l);
        },
        StmtV::While { cond, body } => {
            lemma_while_tmpl(cond, body, f, t, l);
        },
        StmtV::For { .. } => {},
        StmtV::Expr(e) => {
            lemma_expr_tmpl(e, f, t, l);
            let a = "; raw expr ("@ + expr_debug(e) + ")\n"@;
            let b = "pop r0 ; pop to not grow the stack\n"@;
            lemma_wrap(a, expr_tmpl(e, f, t), b, l as nat);
        },
    }
}

/// The `if` case of [`lemma_stmt_tmpl`].
#[verifier::rlimit(30)]
proof fn lemma_if_tmpl(cond: ExprV, body: Seq<StmtV>, f: Seq<char>, t: Seq<EntryV>, l: u64)
    requires
        l + stmt_labels(StmtV::If { cond, body }) <= u64::MAX,
    ensures
        stmt_code(StmtV::If { cond, body }, f, t, l).0 == render(
            stmt_tmpl(StmtV::If { cond, body }, f, t),
            l as nat,
        ),
    decreases body, 2nat,
{
    let s = StmtV::If { cond, body };
    let c = stmt_code(s, f, t, l).0;
    let k = expr_labels(cond);
    lemma_expr_labels(cond, f, t, l);
    lemma_expr_tmpl(cond, f, t, l);
    let l1 = expr_code(cond, f, t, l).1;
    lemma_stmts_tmpl(body, f, t, label_after_u64(l1));
    lemma_render_shift(stmts_tmpl(body, f, t), k + 1, l as nat);
    let a = "; if ("@ + expr_debug(cond) + ")\n"@;
    lemma_render5(
        txt(a),
        expr_tmpl(cond, f, t),
        hole(Snippet::IfHead, k),
        shift(stmts_tmpl(body, f, t), k + 1),
        hole(Snippet::IfEnd, k),
        l as nat,
    );
    lemma_render_one(Piece::Text(a), l as nat);
    lemma_render_one(Piece::Hole(Snippet::IfHead, k), l as nat);
    lemma_render_one(Piece::Hole(Snippet::IfEnd, k), l as nat);
    assert((l as nat) + k == l1 as nat);
    assert((l as nat) + (k + 1) == label_after_u64(l1) as nat);
    assert(c =~= render(stmt_tmpl(s, f, t), l as nat));
}

/// The `while` case of [`lemma_stmt_tmpl`].
#[verifier::rlimit(30)]
proof fn lemma_while_tmpl(cond: ExprV, body: Seq<StmtV>, f: Seq<char>, t: Seq<EntryV>, l: u64)
    requires
        l + stmt_labels(StmtV::While { cond, body }) <= u64::MAX,
    ensures
        stmt_code(StmtV::While { cond, body }, f, t, l).0 == render(
            stmt_tmpl(StmtV::While { cond, body }, f, t),
            l as nat,
        ),
    decreases body, 2nat,
{
    let s = StmtV::While { cond, body };
    let c = stmt_code(s, f, t, l).0;
    let k = expr_labels(cond);
    let l0 = label_after_u64(l);
    lemma_expr_labels(cond, f, t, l0);
    lemma_expr_tmpl(cond, f, t, l0);
    lemma_render_shift(expr_tmpl(cond, f, t), 1, l as nat);
    let l1 = expr_code(cond, f, t, l0).1;
    lemma_stmts_tmpl(body, f, t, l1);
    lemma_render_shift(stmts_tmpl(body, f, t), 1 + k, l as nat);
    lemma_render5(
        hole(Snippet::WhileHead(expr_debug(cond)), 0),
        shift(expr_tmpl(cond, f, t), 1),
        hole(Snippet::WhileMid, 0),
        shift(stmts_tmpl(body, f, t), 1 + k),
        hole(Snippet::WhileEnd, 0),
        l as nat,
    );
    lemma_render_one(Piece::Hole(Snippet::WhileHead(expr_debug(cond)), 0), l as nat);
    lemma_render_one(Piece::Hole(Snippet::WhileMid, 0), l as nat);
    lemma_render_one(Piece::Hole(Snippet::WhileEnd, 0), l as nat);
    assert((l as nat) + 0 == l as nat);
    assert((l as nat) + 1 == l0 as nat);
    assert((l as nat) + (1 + k) == l1 as nat);
    assert(c =~= render(stmt_tmpl(s, f, t), l as nat));
}

/// The label after `l`, as [`crate::labels::label_after`] gives it.
spec fn label_after_u64(l: u64) -> u64 {
    crate::labels::label_after(l)
}

proof fn lemma_stmts_tmpl(ss: Seq<StmtV>, f: Seq<char>, t: Seq<EntryV>, l: u64)
    requires
        l + stmts_labels(ss) <= u64::MAX,
    ensures
        stmts_code(ss, f, t, l).0 == render(stmts_tmpl(ss, f, t), l as nat),
    decreases ss, 1nat,
{
    if ss.len() > 0 {
        lemma_stmt_labels(ss[0], f, t, l);
        lemma_stmt_tmpl(ss[0], f, t, l);
        let l1 = stmt_code(ss[0], f, t, l).1;
        let rest = ss.subrange(1, ss.len() as int);
        lemma_stmts_tmpl(rest, f, t, l1);
        lemma_render_shift(stmts_tmpl(rest, f, t), stmt_labels(ss[0]), l as nat);
        lemma_render_concat(
            stmt_tmpl(ss[0], f, t),
            shift(stmts_tmpl(rest, f, t), stmt_labels(ss[0])),
            l as nat,
        );
    }
}

/// The code of the functions `fs` built from the templates of their
/// bodies, the holes filled from `l`: each function's label, its
/// parameter handling and its body, each line indented (see
/// [`functions_code`]).
pub open spec fn functions_text(fs: Seq<FunctionV>, t: Seq<EntryV>, l: nat) -> Seq<char>
    decreases fs.len(),
{
    if fs.len() == 0 {
        Seq::empty()
    } else {
        let fv = fs[0];
        fv.name + ":\n"@ + indent_lines(params_text(fv.params, fv.name, t)) + indent_lines(
            render(stmts_tmpl(fv.body, fv.name, t), l) + body_tail(fv.return_ty),
        ) + "; end of func "@ + fv.name + "\n\n"@ + functions_text(
            fs.skip(1),
            t,
            l + stmts_labels(fv.body),
        )
    }
}

/// The assembly of program `p` built from the templates of its function
/// bodies, the holes filled from `l` (see [`program_code`]).
pub open spec fn program_text(p: ProgramV, t: Seq<EntryV>, l: nat) -> Seq<char> {
    prologue() + functions_text(p.funcs, t, l) + epilogue()
}

proof fn lemma_functions_text(fs: Seq<FunctionV>, t: Seq<EntryV>, l: u64)
    requires
        l + functions_labels(fs) <= u64::MAX,
    ensures
        functions_code(fs, t, l).0 == functions_text(fs, t, l as nat),
    decreases fs.len(),
{
    if fs.len() > 0 {
        let fv = fs[0];
        lemma_stmts_labels(fv.body, fv.name, t, l);
        lemma_stmts_tmpl(fv.body, fv.name, t, l);
        let l1 = stmts_code(fv.body, fv.name, t, l).1;
        lemma_functions_text(fs.skip(1), t, l1);
        assert(l1 as nat == (l as nat) + stmts_labels(fv.body));
    }
}

/// Law: the assembly of a program is one fixed text in which only the
/// label numbers depend on the counter: from counter `l` it is
/// `program_text(p, t, l)`, the templates of the function bodies with
/// hole `k` filled with label `l + k`. A run takes `K =
/// functions_labels(p.funcs)` labels, so a second run, from `l + K`,
/// writes the same text with every label number moved up by `K` (unless
/// the counter wraps).
pub proof fn lemma_codegen_relabel(p: ProgramV, t: Seq<EntryV>, l: u64)
    requires
        l + 2 * functions_labels(p.funcs) <= u64::MAX,
    ensures
        program_code(p, t, l).1 == l + functions_labels(p.funcs),
        program_code(p, t, l).0 == program_text(p, t, l as nat),
        program_code(p, t, program_code(p, t, l).1).0 == program_text(
            p,
            t,
            (l as nat) + functions_labels(p.funcs),
        ),
{
    let k = functions_labels(p.funcs);
    lemma_program_labels(p, t, l);
    lemma_functions_text(p.funcs, t, l);
    let l2 = program_code(p, t, l).1;
    lemma_functions_text(p.funcs, t, l2);
}

/// Every hole of `ps` takes one of the first `k` labels.
pub open spec fn holes_below(ps: Seq<Piece>, k: nat) -> bool {
    forall|i: int| 0 <= i < ps.len() && #[trigger] ps[i] is Hole ==> ps[i]->Hole_1 < k
}

proof fn lemma_holes_concat(a: Seq<Piece>, b: Seq<Piece>, k: nat)
    requires
        holes_below(a, k),
        holes_below(b, k),
    ensures
        holes_below(a + b, k),
{
    assert forall|i: int| 0 <= i < (a + b).len() && #[trigger] (a + b)[i] is Hole implies (a
        + b)[i]->Hole_1 < k by {
        if i < a.len() {
            assert((a + b)[i] == a[i]);
        } else {
            assert((a + b)[i] == b[i - a.len()]);
        }
    }
}

proof fn lemma_holes_shift(ps: Seq<Piece>, j: nat, k: nat)
    requires
        holes_below(ps, j),
    ensures
        holes_below(shift(ps, k), j + k),
{
    assert forall|i: int| 0 <= i < shift(ps, k).len() && #[trigger] shift(ps, k)[i] is Hole implies shift(
        ps,
        k,
    )[i]->Hole_1 < j + k by {
        assert(shift(ps, k)[i] == shift_piece(ps[i], k));
    }
}

proof fn lemma_holes_weaken(ps: Seq<Piece>, j: nat, k: nat)
    requires
        holes_below(ps, j),
        j <= k,
    ensures
        holes_below(ps, k),
{
}

proof fn lemma_expr_holes(e: ExprV, f: Seq<char>, t: Seq<EntryV>)
    ensures
        holes_below(expr_tmpl(e, f, t), expr_labels(e)),
    decreases e, 1nat,
{
    let k = expr_labels(e);
    if e is Call {
        lemma_args_holes(e->args, f, t);
        lemma_holes_concat(args_tmpl(e->args, f, t), txt("call "@ + e->name + "\n"@), k);
    } else {
        match e {
            ExprV::AddrOf(a) => {
                match *a {
                    ExprV::Deref(x) => {
                        lemma_expr_holes(*x, f, t);
                    },
                    _ => {},
                }
            },
            ExprV::Deref(a) => {
                lemma_expr_holes(*a, f, t);
                lemma_holes_concat(expr_tmpl(*a, f, t), txt("pop r0\nload r1 [r0]\npush r1\n"@), k);
            },
            ExprV::Add(a, b) | ExprV::Sub(a, b) | ExprV::And(a, b) | ExprV::Or(a, b)
            | ExprV::LShift(a, b) | ExprV::RShift(a, b) | ExprV::BinEq(a, b) | ExprV::BinNEq(a, b)
            | ExprV::LE(a, b) | ExprV::GE(a, b) | ExprV::GT(a, b) | ExprV::LT(a, b) => {
                let ka = expr_labels(*a);
                let kb = expr_labels(*b);
                lemma_expr_holes(*a, f, t);
                lemma_expr_holes(*b, f, t);
                lemma_holes_weaken(expr_tmpl(*a, f, t), ka, k);
                lemma_holes_shift(expr_tmpl(*b, f, t), kb, ka);
                lemma_holes_weaken(shift(expr_tmpl(*b, f, t), ka), kb + ka, k);
                let x = expr_tmpl(*a, f, t) + shift(expr_tmpl(*b, f, t), ka);
                lemma_holes_concat(expr_tmpl(*a, f, t), shift(expr_tmpl(*b, f, t), ka), k);
                assert forall|op: Seq<char>| holes_below(
                    x + txt(pop_operands() + #[trigger] arith_tail(op)),
                    k,
                ) by {
                    lemma_holes_concat(x, txt(pop_operands() + arith_tail(op)), k);
                }
                if e is BinEq || e is BinNEq || e is LE || e is GE || e is GT || e is LT {
                    assert(ka + kb < k);
                    lemma_holes_concat(x, txt(pop_operands()), k);
                    assert forall|cond: Seq<char>| holes_below(
                        x + txt(pop_operands()) + #[trigger] hole(Snippet::Test(cond), ka + kb),
                        k,
                    ) by {
                        lemma_holes_concat(x + txt(pop_operands()), hole(Snippet::Test(cond), ka + kb), k);
                    }
                }
                assert(holes_below(expr_tmpl(e, f, t), k));
            },
            _ => {},
        }
    }
}

proof fn lemma_args_holes(s: Seq<ExprV>, f: Seq<char>, t: Seq<EntryV>)
    ensures
        holes_below(args_tmpl(s, f, t), args_labels(s)),
    decreases s, 0nat,
{
    if s.len() > 0 {
        let k1 = expr_labels(s.last());
        let k2 = args_labels(s.drop_last());
        lemma_expr_holes(s.last(), f, t);
        lemma_args_holes(s.drop_last(), f, t);
        lemma_holes_weaken(expr_tmpl(s.last(), f, t), k1, k1 + k2);
        lemma_holes_shift(args_tmpl(s.drop_last(), f, t), k2, k1);
        lemma_holes_concat(expr_tmpl(s.last(), f, t), shift(args_tmpl(s.drop_last(), f, t), k1), k1 + k2);
    }
}

/// Law: the code of an expression is its template with the holes filled
/// from the counter `l`, and every hole takes one of the labels `l` to
/// `l + expr_labels(e) - 1`: each label number in the text lies in the
/// range that the counter moves over (unless the counter wraps).
pub proof fn lemma_expr_labels_in_range(e: ExprV, f: Seq<char>, t: Seq<EntryV>, l: u64)
    requires
        l + expr_labels(e) <= u64::MAX,
    ensures
        expr_code(e, f, t, l).0 == render(expr_tmpl(e, f, t), l as nat),
        holes_below(expr_tmpl(e, f, t), expr_labels(e)),
{
    lemma_expr_tmpl(e, f, t, l);
    lemma_expr_holes(e, f, t);
}

proof fn lemma_holes_wrap(a: Seq<char>, x: Seq<Piece>, b: Seq<char>, k: nat)
    requires
        holes_below(x, k),
    ensures
        holes_below(txt(a) + x + txt(b), k),
{
    lemma_holes_concat(txt(a), x, k);
    lemma_holes_concat(txt(a) + x, txt(b), k);
}

proof fn lemma_holes5(a: Seq<Piece>, b: Seq<Piece>, c: Seq<Piece>, d: Seq<Piece>, e: Seq<Piece>, k: nat)
    requires
        holes_below(a, k),
        holes_below(b, k),
        holes_below(c, k),
        holes_below(d, k),
        holes_below(e, k),
    ensures
        holes_below(a + b + c + d + e, k),
{
    lemma_holes_concat(a, b, k);
    lemma_holes_concat(a + b, c, k);
    lemma_holes_concat(a + b + c, d, k);
    lemma_holes_concat(a + b + c + d, e, k);
}

proof fn lemma_stmt_holes(s: StmtV, f: Seq<char>, t: Seq<EntryV>)
    ensures
        holes_below(stmt_tmpl(s, f, t), stmt_labels(s)),
    decreases s,
{
    let k = stmt_labels(s);
    match s {
        StmtV::Return(e) => {
            lemma_expr_holes(e, f, t);
            lemma_holes_wrap("; return "@ + expr_debug(e) + "\n"@, expr_tmpl(e, f, t), "pop r0\npop r1\npush r0\npush r1\nret\n"@, k);
        },
        StmtV::Decl { ty, name, init } => {
            lemma_expr_holes(init, f, t);
            lemma_holes_wrap(
                "; u32 "@ + name + " = "@ + expr_debug(init) + "\n"@,
                expr_tmpl(init, f, t),
                "copy r0 "@ + nat_text(addr_of(t, f, name) as nat)
                    + "\npop r1 ; the stack contains the value of "@ + name + "\nstore [r0] r1\n"@,
                k,
            );
        },
        StmtV::Assign { target, value } => {
            lemma_expr_holes(value, f, t);
            lemma_holes_wrap(
                "; "@ + expr_debug(target) + " = "@ + expr_debug(value) + "\n"@,
                expr_tmpl(value, f, t),
                "pop r1 ; the stack contains the value of "@ + expr_debug(target) + "\n"@
                    + lvalue_code(target, f, t) + "store [r0] r1\n"@,
                k,
            );
        },
        StmtV::If { cond, body } => {
            let kc = expr_labels(cond);
            let kb = stmts_labels(body);
            lemma_expr_holes(cond, f, t);
            lemma_holes_weaken(expr_tmpl(cond, f, t), kc, k);
            lemma_stmts_holes(body, f, t);
            lemma_holes_shift(stmts_tmpl(body, f, t), kb, kc + 1);
            lemma_holes5(
                txt("; if ("@ + expr_debug(cond) + ")\n"@),
                expr_tmpl(cond, f, t),
                hole(Snippet::IfHead, kc),
                shift(stmts_tmpl(body, f, t), kc + 1),
                hole(Snippet::IfEnd, kc),
                k,
            );
        },
        StmtV::While { cond, body } => {
            let kc = expr_labels(cond);
            let kb = stmts_labels(body);
            lemma_expr_holes(cond, f, t);
            lemma_holes_shift(expr_tmpl(cond, f, t), kc, 1);
            lemma_holes_weaken(shift(expr_tmpl(cond, f, t), 1), kc + 1, k);
            lemma_stmts_holes(body, f, t);
            lemma_holes_shift(stmts_tmpl(body, f, t), kb, 1 + kc);
            lemma_holes5(
                hole(Snippet::WhileHead(expr_debug(cond)), 0),
                shift(expr_tmpl(cond, f, t), 1),
                hole(Snippet::WhileMid, 0),
                shift(stmts_tmpl(body, f, t), 1 + kc),
                hole(Snippet::WhileEnd, 0),
                k,
            );
        },
        StmtV::For { .. } => {},
        StmtV::Expr(e) => {
            lemma_expr_holes(e, f, t);
            lemma_holes_wrap("; raw expr ("@ + expr_debug(e) + ")\n"@, expr_tmpl(e, f, t), "pop r0 ; pop to not grow the stack\n"@, k);
        },
    }
}

proof fn lemma_stmts_holes(ss: Seq<StmtV>, f: Seq<char>, t: Seq<EntryV>)
    ensures
        holes_below(stmts_tmpl(ss, f, t), stmts_labels(ss)),
    decreases ss,
{
    if ss.len() > 0 {
        let rest = ss.subrange(1, ss.len() as int);
        let k1 = stmt_labels(ss[0]);
        let k2 = stmts_labels(rest);
        lemma_stmt_holes(ss[0], f, t);
        lemma_stmts_holes(rest, f, t);
        lemma_holes_weaken(stmt_tmpl(ss[0], f, t), k1, k1 + k2);
        lemma_holes_shift(stmts_tmpl(rest, f, t), k2, k1);
        lemma_holes_concat(stmt_tmpl(ss[0], f, t), shift(stmts_tmpl(rest, f, t), k1), k1 + k2);
    }
}

/// Law: the code of a statement is its template with the holes filled
/// from the counter `l`, and every hole takes one of the labels `l` to
/// `l + stmt_labels(s) - 1`: each label number in the text lies in the
/// range that the counter moves over (unless the counter wraps).
pub proof fn lemma_stmt_labels_in_range(s: StmtV, f: Seq<char>, t: Seq<EntryV>, l: u64)
    requires
        l + stmt_labels(s) <= u64::MAX,
    ensures
        stmt_code(s, f, t, l).0 == render(stmt_tmpl(s, f, t), l as nat),
        holes_below(stmt_tmpl(s, f, t), stmt_labels(s)),
{
    lemma_stmt_tmpl(s, f, t, l);
    lemma_stmt_holes(s, f, t);
}

/// Law: the same of a sequence of statements, as `compile_body` writes
/// them.
pub proof fn lemma_stmts_labels_in_range(ss: Seq<StmtV>, f: Seq<char>, t: Seq<EntryV>, l: u64)
    requires
        l + stmts_labels(ss) <= u64::MAX,
    ensures
        stmts_code(ss, f, t, l).0 == render(stmts_tmpl(ss, f, t), l as nat),
        holes_below(stmts_tmpl(ss, f, t), stmts_labels(ss)),
{
    lemma_stmts_tmpl(ss, f, t, l);
    lemma_stmts_holes(ss, f, t);
}

} // verus!
