//! The parser: from tokens to the syntax tree.
//!
//! Each parsing function tries its alternatives in order and takes the
//! first that succeeds, going back to where it started before trying the
//! next; a repetition takes its item as many times as the item succeeds.
//! Expressions are unary expressions joined by binary operators, all of
//! one precedence and grouped from the left.

use vstd::prelude::*;
use crate::ast::{BaseType, Expr, ExprV, Function, FunctionV, Program, ProgramV, Stmt, StmtV, Type, exprs_view, stmts_view, lemma_exprs_view_push, lemma_stmts_view_push};
pub use crate::lexer::Tok;
use crate::lexer::{TokV, toks_view, lex, lex_spec, LexOutcome, LexSpec, all_ws, lemma_lex_empty, lemma_lex_whitespace_join, lex_error_text, lex_error_message};
use vstd::string::StringExecFns;

verus! {

/// The binary operators.
#[derive(Clone, Copy)]
pub enum AddOp {
    Plus,
    Minus,
    And,
    LShift,
    RShift,
    BinEq,
    BinNEq,
    Or,
    LE,
    GE,
    GT,
    LT,
}

/// The binary operator that a token stands for, if any.
pub open spec fn op_of(t: TokV) -> Option<AddOp> {
    match t {
        TokV::Plus => Some(AddOp::Plus),
        TokV::Minus => Some(AddOp::Minus),
        TokV::And => Some(AddOp::And),
        TokV::RShift => Some(AddOp::RShift),
        TokV::LShift => Some(AddOp::LShift),
        TokV::BinEq => Some(AddOp::BinEq),
        TokV::BinNEq => Some(AddOp::BinNEq),
        TokV::Or => Some(AddOp::Or),
        TokV::LE => Some(AddOp::LE),
        TokV::GE => Some(AddOp::GE),
        TokV::GT => Some(AddOp::GT),
        TokV::LT => Some(AddOp::LT),
        _ => None,
    }
}

/// The expression `l op r`.
pub open spec fn mk_binary(op: AddOp, l: ExprV, r: ExprV) -> ExprV {
    let (a, b) = (Box::new(l), Box::new(r));
    match op {
        AddOp::Plus => ExprV::Add(a, b),
        AddOp::Minus => ExprV::Sub(a, b),
        AddOp::And => ExprV::And(a, b),
        AddOp::Or => ExprV::Or(a, b),
        AddOp::LShift => ExprV::LShift(a, b),
        AddOp::RShift => ExprV::RShift(a, b),
        AddOp::BinEq => ExprV::BinEq(a, b),
        AddOp::BinNEq => ExprV::BinNEq(a, b),
        AddOp::LE => ExprV::LE(a, b),
        AddOp::GE => ExprV::GE(a, b),
        AddOp::LT => ExprV::LT(a, b),
        AddOp::GT => ExprV::GT(a, b),
    }
}

/// Whether token `p` of `ts` exists and is `t`.
pub open spec fn tok_is(ts: Seq<TokV>, p: int, t: TokV) -> bool {
    0 <= p < ts.len() && ts[p] == t
}

/// expr = unary (op unary)*
pub open spec fn p_expr(ts: Seq<TokV>, p: int) -> Option<(ExprV, int)>
    decreases ts.len() - p, 4nat,
{
    match p_unary(ts, p) {
        Some((lhs, q)) => if p < q <= ts.len() {
            Some(p_fold(ts, lhs, q))
        } else {
            None
        },
        None => None,
    }
}

/// The `(op unary)*` part of an expression, after `lhs`: each operator
/// and its right operand make a new left operand. An item of a
/// repetition always takes at least one token; the range test on the
/// position keeps this definition well-founded.
pub open spec fn p_fold(ts: Seq<TokV>, lhs: ExprV, q: int) -> (ExprV, int)
    decreases ts.len() - q, 1nat,
{
    if 0 <= q < ts.len() && op_of(ts[q]) is Some {
        match p_unary(ts, q + 1) {
            Some((rhs, q2)) => if q < q2 <= ts.len() {
                p_fold(ts, mk_binary(op_of(ts[q])->0, lhs, rhs), q2)
            } else {
                (lhs, q)
            },
            None => (lhs, q),
        }
    } else {
        (lhs, q)
    }
}

/// unary = '&' unary | '*' unary | primary
pub open spec fn p_unary(ts: Seq<TokV>, p: int) -> Option<(ExprV, int)>
    decreases ts.len() - p, 3nat,
{
    if tok_is(ts, p, TokV::AddrOf) {
        match p_unary(ts, p + 1) {
            Some((e, q)) => Some((ExprV::AddrOf(Box::new(e)), q)),
            None => None,
        }
    } else if tok_is(ts, p, TokV::Star) {
        match p_unary(ts, p + 1) {
            Some((e, q)) => Some((ExprV::Deref(Box::new(e)), q)),
            None => None,
        }
    } else {
        p_primary(ts, p)
    }
}

/// primary = ident '(' args ')' | int | ident | '(' expr ')'
pub open spec fn p_primary(ts: Seq<TokV>, p: int) -> Option<(ExprV, int)>
    decreases ts.len() - p, 2nat,
{
    if 0 <= p < ts.len() {
        match ts[p] {
            TokV::Ident(n) => if tok_is(ts, p + 1, TokV::LParen) {
                let (args, q) = p_args(ts, p + 2);
                if tok_is(ts, q, TokV::RParen) {
                    Some((ExprV::Call { name: n, args }, q + 1))
                } else {
                    Some((ExprV::Var(n), p + 1))
                }
            } else {
                Some((ExprV::Var(n), p + 1))
            },
            TokV::IntLit(i) => Some((ExprV::Int(i), p + 1)),
            TokV::LParen => match p_expr(ts, p + 1) {
                Some((e, q)) => if tok_is(ts, q, TokV::RParen) {
                    Some((e, q + 1))
                } else {
                    None
                },
                None => None,
            },
            _ => None,
        }
    } else {
        None
    }
}

/// args = (expr (',' expr)* ','?)?  -- never fails.
pub open spec fn p_args(ts: Seq<TokV>, p: int) -> (Seq<ExprV>, int)
    decreases ts.len() - p, 5nat,
{
    match p_expr(ts, p) {
        Some((e, q)) => if p < q <= ts.len() {
            p_args_tail(ts, seq![e], q)
        } else {
            (Seq::empty(), p)
        },
        None => (Seq::empty(), p),
    }
}

/// The `(',' expr)* ','?` part of the arguments, after `acc`.
pub open spec fn p_args_tail(ts: Seq<TokV>, acc: Seq<ExprV>, q: int) -> (Seq<ExprV>, int)
    decreases ts.len() - q, 1nat,
{
    if tok_is(ts, q, TokV::Comma) {
        match p_expr(ts, q + 1) {
            Some((e, q2)) => if q < q2 <= ts.len() {
                p_args_tail(ts, acc.push(e), q2)
            } else {
                (acc, q)
            },
            None => (acc, q + 1),
        }
    } else {
        (acc, q)
    }
}

/// An expression ends after its start, inside the tokens.
pub proof fn lemma_p_expr(ts: Seq<TokV>, p: int)
    ensures
        p_expr(ts, p) matches Some((_, q)) ==> p < q <= ts.len(),
    decreases ts.len() - p, 4nat,
{
    lemma_p_unary(ts, p);
    match p_unary(ts, p) {
        Some((lhs, q)) => if p < q <= ts.len() {
            lemma_p_fold(ts, lhs, q);
        },
        None => {},
    }
}

/// The operators after an expression never take it back.
pub proof fn lemma_p_fold(ts: Seq<TokV>, lhs: ExprV, q: int)
    requires
        0 <= q <= ts.len(),
    ensures
        q <= p_fold(ts, lhs, q).1 <= ts.len(),
    decreases ts.len() - q, 1nat,
{
    if 0 <= q < ts.len() && op_of(ts[q]) is Some {
        match p_unary(ts, q + 1) {
            Some((rhs, q2)) => if q < q2 <= ts.len() {
                lemma_p_fold(ts, mk_binary(op_of(ts[q])->0, lhs, rhs), q2);
            },
            None => {},
        }
    }
}

/// A unary expression ends after its start, inside the tokens.
pub proof fn lemma_p_unary(ts: Seq<TokV>, p: int)
    ensures
        p_unary(ts, p) matches Some((_, q)) ==> p < q <= ts.len(),
    decreases ts.len() - p, 3nat,
{
    if tok_is(ts, p, TokV::AddrOf) || tok_is(ts, p, TokV::Star) {
        lemma_p_unary(ts, p + 1);
    } else {
        lemma_p_primary(ts, p);
    }
}

/// A primary expression ends after its start, inside the tokens.
pub proof fn lemma_p_primary(ts: Seq<TokV>, p: int)
    ensures
        p_primary(ts, p) matches Some((_, q)) ==> p < q <= ts.len(),
    decreases ts.len() - p, 2nat,
{
    if 0 <= p < ts.len() {
        match ts[p] {
            TokV::Ident(n) => if tok_is(ts, p + 1, TokV::LParen) {
                lemma_p_args(ts, p + 2);
            },
            TokV::LParen => {
                lemma_p_expr(ts, p + 1);
            },
            _ => {},
        }
    }
}

/// The arguments of a call never go back.
pub proof fn lemma_p_args(ts: Seq<TokV>, p: int)
    requires
        0 <= p <= ts.len(),
    ensures
        p <= p_args(ts, p).1 <= ts.len(),
    decreases ts.len() - p, 5nat,
{
    lemma_p_expr(ts, p);
    match p_expr(ts, p) {
        Some((e, q)) => if p < q <= ts.len() {
            lemma_p_args_tail(ts, seq![e], q);
        },
        None => {},
    }
}

/// The further arguments of a call never go back.
pub proof fn lemma_p_args_tail(ts: Seq<TokV>, acc: Seq<ExprV>, q: int)
    requires
        0 <= q <= ts.len(),
    ensures
        q <= p_args_tail(ts, acc, q).1 <= ts.len(),
    decreases ts.len() - q, 1nat,
{
    if tok_is(ts, q, TokV::Comma) {
        match p_expr(ts, q + 1) {
            Some((e, q2)) => if q < q2 <= ts.len() {
                lemma_p_args_tail(ts, acc.push(e), q2);
            },
            None => {},
        }
    }
}

/// The first of two results that succeeded.
pub open spec fn or_else<T>(a: Option<T>, b: Option<T>) -> Option<T> {
    match a {
        Some(x) => Some(x),
        None => b,
    }
}

/// The name of identifier token `p`, if it is one.
pub open spec fn p_ident(ts: Seq<TokV>, p: int) -> Option<Seq<char>> {
    if 0 <= p < ts.len() {
        match ts[p] {
            TokV::Ident(n) => Some(n),
            _ => None,
        }
    } else {
        None
    }
}

/// The number of `*` tokens from position `k` on.
pub open spec fn star_run(ts: Seq<TokV>, k: int) -> nat
    decreases ts.len() - k,
{
    if tok_is(ts, k, TokV::Star) {
        1 + star_run(ts, k + 1)
    } else {
        0
    }
}

/// type = ('void' | 'u32') '*'*  -- the number of stars is kept as a
/// `u32`, wrapping as an `as` conversion does.
pub open spec fn p_type(ts: Seq<TokV>, p: int) -> Option<(Type, int)> {
    let base = if tok_is(ts, p, TokV::Void) {
        Some(BaseType::Void)
    } else if tok_is(ts, p, TokV::U32) {
        Some(BaseType::U32)
    } else {
        None
    };
    match base {
        Some(b) => {
            let k = star_run(ts, p + 1);
            Some((Type { base: b, ptr: k as u32 }, p + 1 + k))
        },
        None => None,
    }
}

/// decl = type ident '=' expr ';'
pub open spec fn p_decl(ts: Seq<TokV>, p: int) -> Option<(StmtV, int)> {
    match p_type(ts, p) {
        Some((ty, q)) => match p_ident(ts, q) {
            Some(name) => if tok_is(ts, q + 1, TokV::Eq) {
                match p_expr(ts, q + 2) {
                    Some((init, q3)) => if tok_is(ts, q3, TokV::Semi) {
                        Some((StmtV::Decl { ty, name, init }, q3 + 1))
                    } else {
                        None
                    },
                    None => None,
                }
            } else {
                None
            },
            None => None,
        },
        None => None,
    }
}

/// lvalue = ident | '*' expr
pub open spec fn p_lvalue(ts: Seq<TokV>, p: int) -> Option<(ExprV, int)> {
    match p_ident(ts, p) {
        Some(n) => Some((ExprV::Var(n), p + 1)),
        None => if tok_is(ts, p, TokV::Star) {
            match p_expr(ts, p + 1) {
                Some((e, q)) => Some((ExprV::Deref(Box::new(e)), q)),
                None => None,
            }
        } else {
            None
        },
    }
}

/// assign = lvalue '=' expr ';'
pub open spec fn p_assign(ts: Seq<TokV>, p: int) -> Option<(StmtV, int)> {
    match p_lvalue(ts, p) {
        Some((target, q)) => if tok_is(ts, q, TokV::Eq) {
            match p_expr(ts, q + 1) {
                Some((value, q2)) => if tok_is(ts, q2, TokV::Semi) {
                    Some((StmtV::Assign { target, value }, q2 + 1))
                } else {
                    None
                },
                None => None,
            }
        } else {
            None
        },
        None => None,
    }
}

/// return = 'return' expr ';'
pub open spec fn p_return(ts: Seq<TokV>, p: int) -> Option<(StmtV, int)> {
    if tok_is(ts, p, TokV::Return) {
        match p_expr(ts, p + 1) {
            Some((e, q)) => if tok_is(ts, q, TokV::Semi) {
                Some((StmtV::Return(e), q + 1))
            } else {
                None
            },
            None => None,
        }
    } else {
        None
    }
}

/// expr_stmt = expr ';'
pub open spec fn p_expr_stmt(ts: Seq<TokV>, p: int) -> Option<(StmtV, int)> {
    match p_expr(ts, p) {
        Some((e, q)) => if tok_is(ts, q, TokV::Semi) {
            Some((StmtV::Expr(e), q + 1))
        } else {
            None
        },
        None => None,
    }
}

/// if = 'if' '(' expr ')' '{' stmt* '}'   (and `while` alike)
pub open spec fn p_block_stmt(ts: Seq<TokV>, p: int, is_if: bool) -> Option<(StmtV, int)>
    decreases ts.len() - p, 1nat,
{
    let kw = if is_if {
        TokV::If
    } else {
        TokV::While
    };
    if tok_is(ts, p, kw) && tok_is(ts, p + 1, TokV::LParen) {
        match p_expr(ts, p + 2) {
            Some((cond, q)) => if tok_is(ts, q, TokV::RParen) && tok_is(ts, q + 1, TokV::LBrace) {
                proof {
                    lemma_p_expr(ts, p + 2);
                }
                let (body, q2) = p_stmts(ts, q + 2);
                if tok_is(ts, q2, TokV::RBrace) {
                    if is_if {
                        Some((StmtV::If { cond, body }, q2 + 1))
                    } else {
                        Some((StmtV::While { cond, body }, q2 + 1))
                    }
                } else {
                    None
                }
            } else {
                None
            },
            None => None,
        }
    } else {
        None
    }
}

/// stmt = decl | assign | return | if | while | expr_stmt
pub open spec fn p_stmt(ts: Seq<TokV>, p: int) -> Option<(StmtV, int)>
    decreases ts.len() - p, 2nat,
{
    or_else(
        p_decl(ts, p),
        or_else(
            p_assign(ts, p),
            or_else(
                p_return(ts, p),
                or_else(
                    p_block_stmt(ts, p, true),
                    or_else(p_block_stmt(ts, p, false), p_expr_stmt(ts, p)),
                ),
            ),
        ),
    )
}

/// stmt*  -- never fails.
pub open spec fn p_stmts(ts: Seq<TokV>, p: int) -> (Seq<StmtV>, int)
    decreases ts.len() - p, 3nat,
{
    match p_stmt(ts, p) {
        Some((st, q)) => if p < q <= ts.len() {
            let (rest, q2) = p_stmts(ts, q);
            (seq![st] + rest, q2)
        } else {
            (Seq::empty(), p)
        },
        None => (Seq::empty(), p),
    }
}

/// param = type ident
pub open spec fn p_param(ts: Seq<TokV>, p: int) -> Option<((Type, Seq<char>), int)> {
    match p_type(ts, p) {
        Some((ty, q)) => match p_ident(ts, q) {
            Some(n) => Some(((ty, n), q + 1)),
            None => None,
        },
        None => None,
    }
}

/// params = (param (',' param)* ','?)?  -- never fails.
pub open spec fn p_params(ts: Seq<TokV>, p: int) -> (Seq<(Type, Seq<char>)>, int) {
    match p_param(ts, p) {
        Some((x, q)) => p_params_tail(ts, seq![x], q),
        None => (Seq::empty(), p),
    }
}

/// The `(',' param)* ','?` part of the parameters, after `acc`.
pub open spec fn p_params_tail(ts: Seq<TokV>, acc: Seq<(Type, Seq<char>)>, q: int) -> (
    Seq<(Type, Seq<char>)>,
    int,
)
    decreases ts.len() - q,
{
    if tok_is(ts, q, TokV::Comma) {
        match p_param(ts, q + 1) {
            Some((x, q2)) => p_params_tail(ts, acc.push(x), q2),
            None => (acc, q + 1),
        }
    } else {
        (acc, q)
    }
}

/// A statement ends after its start, inside the tokens.
pub proof fn lemma_p_stmt(ts: Seq<TokV>, p: int)
    ensures
        p_stmt(ts, p) matches Some((_, q)) ==> p < q <= ts.len(),
    decreases ts.len() - p, 2nat,
{
    lemma_p_block_stmt(ts, p, true);
    lemma_p_block_stmt(ts, p, false);
    match p_type(ts, p) {
        Some((ty, q)) => {
            lemma_p_expr(ts, q + 2);
        },
        None => {},
    }
    lemma_p_expr(ts, p);
    lemma_p_expr(ts, p + 1);
    match p_lvalue(ts, p) {
        Some((target, q)) => {
            lemma_p_expr(ts, q + 1);
        },
        None => {},
    }
}

/// An `if` or `while` statement ends after its start, inside the tokens.
pub proof fn lemma_p_block_stmt(ts: Seq<TokV>, p: int, is_if: bool)
    ensures
        p_block_stmt(ts, p, is_if) matches Some((_, q)) ==> p < q <= ts.len(),
    decreases ts.len() - p, 1nat,
{
    let kw = if is_if {
        TokV::If
    } else {
        TokV::While
    };
    if tok_is(ts, p, kw) && tok_is(ts, p + 1, TokV::LParen) {
        lemma_p_expr(ts, p + 2);
        match p_expr(ts, p + 2) {
            Some((cond, q)) => if tok_is(ts, q, TokV::RParen) && tok_is(ts, q + 1, TokV::LBrace) {
                lemma_p_stmts(ts, q + 2);
            },
            None => {},
        }
    }
}

/// Statements never go back.
pub proof fn lemma_p_stmts(ts: Seq<TokV>, p: int)
    requires
        0 <= p <= ts.len(),
    ensures
        p <= p_stmts(ts, p).1 <= ts.len(),
    decreases ts.len() - p, 3nat,
{
    match p_stmt(ts, p) {
        Some((st, q)) => if p < q <= ts.len() {
            lemma_p_stmts(ts, q);
        },
        None => {},
    }
}

/// Law: a run of statements takes every statement that follows: where it
/// stops, no statement starts.
pub proof fn lemma_stmts_maximal(ts: Seq<TokV>, p: int)
    requires
        0 <= p <= ts.len(),
    ensures
        p_stmt(ts, p_stmts(ts, p).1) is None,
    decreases ts.len() - p,
{
    lemma_p_stmt(ts, p);
    match p_stmt(ts, p) {
        Some((st, q)) => {
            lemma_stmts_maximal(ts, q);
        },
        None => {},
    }
}

/// The tokens that spell type `ty`: its base, then one `*` per pointer
/// level.
pub open spec fn type_toks(ty: Type) -> Seq<TokV> {
    seq![
        if ty.base == BaseType::Void {
            TokV::Void
        } else {
            TokV::U32
        },
    ] + Seq::new(ty.ptr as nat, |i: int| TokV::Star)
}

/// The tokens that spell parameter `p`: its type, then its name.
pub open spec fn param_toks(p: (Type, Seq<char>)) -> Seq<TokV> {
    type_toks(p.0) + seq![TokV::Ident(p.1)]
}

/// The tokens of the parameters `ps`, each after a comma.
pub open spec fn more_param_toks(ps: Seq<(Type, Seq<char>)>) -> Seq<TokV>
    decreases ps.len(),
{
    if ps.len() == 0 {
        Seq::empty()
    } else {
        seq![TokV::Comma] + param_toks(ps[0]) + more_param_toks(ps.skip(1))
    }
}

/// The tokens of a parameter list: the parameters joined by commas, with
/// a comma after the last one when `trailing` holds.
pub open spec fn params_toks(ps: Seq<(Type, Seq<char>)>, trailing: bool) -> Seq<TokV> {
    if ps.len() == 0 {
        Seq::empty()
    } else {
        param_toks(ps[0]) + more_param_toks(ps.skip(1)) + if trailing {
            seq![TokV::Comma]
        } else {
            Seq::empty()
        }
    }
}

/// A run of `m` stars followed by something else.
proof fn lemma_star_run_exact(ts: Seq<TokV>, k: int, m: nat)
    requires
        0 <= k,
        k + m < ts.len(),
        forall|i: int| k <= i < k + m ==> ts[i] == TokV::Star,
        ts[k + m] != TokV::Star,
    ensures
        star_run(ts, k) == m,
    decreases m,
{
    if m > 0 {
        lemma_star_run_exact(ts, k + 1, (m - 1) as nat);
    }
}

/// A parameter spelled out at `k` is read whole.
proof fn lemma_param_read(ts: Seq<TokV>, k: int, p: (Type, Seq<char>))
    requires
        0 <= k,
        k + param_toks(p).len() <= ts.len(),
        forall|i: int| 0 <= i < param_toks(p).len() ==> ts[k + i] == #[trigger] param_toks(p)[i],
    ensures
        p_param(ts, k) == Some((p, k + param_toks(p).len())),
{
    let pt = param_toks(p);
    let n = p.0.ptr as nat;
    assert(pt.len() == n + 2);
    assert(ts[k + 0] == pt[0]);
    assert forall|i: int| k + 1 <= i < k + 1 + n implies ts[i] == TokV::Star by {
        assert(ts[k + (i - k)] == pt[i - k]);
    }
    assert(ts[k + (n + 1)] == pt[n + 1 as int]);
    lemma_star_run_exact(ts, k + 1, n);
    assert((n as u32) == p.0.ptr);
}

/// The further parameters spelled out at `q`, then a `)` (after a
/// trailing comma when `trailing` holds), are read whole.
proof fn lemma_params_tail_read(
    ts: Seq<TokV>,
    acc: Seq<(Type, Seq<char>)>,
    q: int,
    ps: Seq<(Type, Seq<char>)>,
    trailing: bool,
)
    requires
        0 <= q,
        q + more_param_toks(ps).len() + (if trailing {
            2int
        } else {
            1int
        }) <= ts.len(),
        forall|i: int|
            0 <= i < more_param_toks(ps).len() ==> ts[q + i] == #[trigger] more_param_toks(ps)[i],
        trailing ==> ts[q + more_param_toks(ps).len()] == TokV::Comma && ts[q
            + more_param_toks(ps).len() + 1] == TokV::RParen,
        !trailing ==> ts[q + more_param_toks(ps).len()] == TokV::RParen,
    ensures
        p_params_tail(ts, acc, q) == (acc + ps, q + more_param_toks(ps).len() + if trailing {
            1int
        } else {
            0int
        }),
    decreases ps.len(),
{
    let mt = more_param_toks(ps);
    if ps.len() == 0 {
        assert(acc + ps =~= acc);
    } else {
        let pt = param_toks(ps[0]);
        let rest = ps.skip(1);
        let mr = more_param_toks(rest);
        assert(mt =~= seq![TokV::Comma] + pt + mr);
        assert(ts[q + 0] == mt[0]);
        assert forall|i: int| 0 <= i < pt.len() implies ts[(q + 1) + i] == #[trigger] pt[i] by {
            assert(ts[q + (1 + i)] == mt[1 + i]);
        }
        lemma_param_read(ts, q + 1, ps[0]);
        let q2 = q + 1 + pt.len();
        assert forall|i: int| 0 <= i < mr.len() implies ts[q2 + i] == #[trigger] mr[i] by {
            assert(ts[q + (1 + pt.len() + i)] == mt[1 + pt.len() + i]);
        }
        assert(q2 + mr.len() == q + mt.len());
        lemma_params_tail_read(ts, acc.push(ps[0]), q2, rest, trailing);
        assert(acc.push(ps[0]) + rest =~= acc + ps);
    }
}

/// Law: a parameter list is read whole. When the tokens at `pre.len()`
/// spell the parameters `ps` joined by commas (with a trailing comma when
/// `trailing` holds) and a `)` follows, the parameters read there are
/// exactly `ps`, in order, and reading stops just before the `)`.
pub proof fn lemma_params_read(
    pre: Seq<TokV>,
    ps: Seq<(Type, Seq<char>)>,
    trailing: bool,
    rest: Seq<TokV>,
)
    requires
        rest.len() > 0,
        rest[0] == TokV::RParen,
    ensures
        p_params(pre + params_toks(ps, trailing) + rest, pre.len() as int) == (
            ps,
            (pre.len() + params_toks(ps, trailing).len()) as int,
        ),
{
    let ts = pre + params_toks(ps, trailing) + rest;
    let k = pre.len() as int;
    if ps.len() == 0 {
        assert(ts[k] == rest[0]);
    } else {
        let pt = param_toks(ps[0]);
        let mt = more_param_toks(ps.skip(1));
        let all = params_toks(ps, trailing);
        assert forall|i: int| 0 <= i < pt.len() implies ts[k + i] == #[trigger] pt[i] by {
            assert(ts[k + i] == all[i]);
        }
        lemma_param_read(ts, k, ps[0]);
        let q = k + pt.len();
        assert forall|i: int| 0 <= i < mt.len() implies ts[q + i] == #[trigger] mt[i] by {
            assert(ts[k + (pt.len() + i)] == all[pt.len() + i]);
        }
        if trailing {
            assert(ts[k + (pt.len() + mt.len())] == all[(pt.len() + mt.len()) as int]);
            assert(ts[q + mt.len() + 1] == rest[0]);
        } else {
            assert(ts[q + mt.len()] == rest[0]);
        }
        lemma_params_tail_read(ts, seq![ps[0]], q, ps.skip(1), trailing);
        assert(seq![ps[0]] + ps.skip(1) =~= ps);
    }
}

/// The parameters never go back.
pub proof fn lemma_p_params(ts: Seq<TokV>, p: int)
    requires
        0 <= p <= ts.len(),
    ensures
        p <= p_params(ts, p).1 <= ts.len(),
{
    match p_param(ts, p) {
        Some((x, q)) => lemma_p_params_tail(ts, seq![x], q),
        None => {},
    }
}

/// The further parameters never go back.
proof fn lemma_p_params_tail(ts: Seq<TokV>, acc: Seq<(Type, Seq<char>)>, q: int)
    requires
        0 <= q <= ts.len(),
    ensures
        q <= p_params_tail(ts, acc, q).1 <= ts.len(),
    decreases ts.len() - q,
{
    if tok_is(ts, q, TokV::Comma) {
        match p_param(ts, q + 1) {
            Some((x, q2)) => lemma_p_params_tail(ts, acc.push(x), q2),
            None => {},
        }
    }
}

/// function = type ident '(' params ')' '{' stmt* '}'
pub open spec fn p_function(ts: Seq<TokV>, p: int) -> Option<(FunctionV, int)> {
    match p_type(ts, p) {
        Some((return_ty, q1)) => match p_ident(ts, q1) {
            Some(name) => if tok_is(ts, q1 + 1, TokV::LParen) {
                let (params, q2) = p_params(ts, q1 + 2);
                if tok_is(ts, q2, TokV::RParen) && tok_is(ts, q2 + 1, TokV::LBrace) {
                    let (body, q3) = p_stmts(ts, q2 + 2);
                    if tok_is(ts, q3, TokV::RBrace) {
                        Some((FunctionV { return_ty, name, params, body }, q3 + 1))
                    } else {
                        None
                    }
                } else {
                    None
                }
            } else {
                None
            },
            None => None,
        },
        None => None,
    }
}

/// A function ends after its start, inside the tokens.
pub proof fn lemma_p_function(ts: Seq<TokV>, p: int)
    ensures
        p_function(ts, p) matches Some((_, q)) ==> p < q <= ts.len(),
{
    match p_type(ts, p) {
        Some((return_ty, q1)) => if p_ident(ts, q1) is Some && tok_is(ts, q1 + 1, TokV::LParen) {
            lemma_p_params(ts, q1 + 2);
            let q2 = p_params(ts, q1 + 2).1;
            if tok_is(ts, q2, TokV::RParen) && tok_is(ts, q2 + 1, TokV::LBrace) {
                lemma_p_stmts(ts, q2 + 2);
            }
        },
        None => {},
    }
}

/// function*
pub open spec fn p_functions(ts: Seq<TokV>, p: int) -> (Seq<FunctionV>, int)
    decreases ts.len() - p,
{
    match p_function(ts, p) {
        Some((f, q)) => {
            proof {
                lemma_p_function(ts, p);
            }
            let (rest, q2) = p_functions(ts, q);
            (seq![f] + rest, q2)
        },
        None => (Seq::empty(), p),
    }
}

/// program = function+ end  -- the functions must use all the tokens.
pub open spec fn p_program(ts: Seq<TokV>) -> Option<ProgramV> {
    let (funcs, q) = p_functions(ts, 0);
    if funcs.len() >= 1 && q == ts.len() {
        Some(ProgramV { funcs })
    } else {
        None
    }
}

/// The token at `p`, if there is one.
fn tok_at(ts: &Vec<Tok>, p: usize) -> (r: Option<&Tok>)
    ensures
        ts@.len() <= usize::MAX,
        r matches Some(t) ==> toks_view(ts@)[p as int] == t@,
        p < ts@.len() ==> r == Some(&ts@[p as int]),
        p >= ts@.len() ==> r is None,
{
    if p < ts.len() {
        Some(&ts[p])
    } else {
        None
    }
}

/// The binary operator of a token (see [`op_of`]).
fn op_of_exec(t: &Tok) -> (r: Option<AddOp>)
    ensures
        r == op_of(t@),
{
    match t {
        Tok::Plus => Some(AddOp::Plus),
        Tok::Minus => Some(AddOp::Minus),
        Tok::And => Some(AddOp::And),
        Tok::RShift => Some(AddOp::RShift),
        Tok::LShift => Some(AddOp::LShift),
        Tok::BinEq => Some(AddOp::BinEq),
        Tok::BinNEq => Some(AddOp::BinNEq),
        Tok::Or => Some(AddOp::Or),
        Tok::LE => Some(AddOp::LE),
        Tok::GE => Some(AddOp::GE),
        Tok::GT => Some(AddOp::GT),
        Tok::LT => Some(AddOp::LT),
        _ => None,
    }
}

/// The binary expression of `op` (see [`mk_binary`]).
fn mk_binary_exec(op: AddOp, l: Expr, r: Expr) -> (e: Expr)
    ensures
        e@ == mk_binary(op, l@, r@),
{
    let (a, b) = (Box::new(l), Box::new(r));
    match op {
        AddOp::Plus => Expr::Add(a, b),
        AddOp::Minus => Expr::Sub(a, b),
        AddOp::And => Expr::And(a, b),
        AddOp::Or => Expr::Or(a, b),
        AddOp::LShift => Expr::LShift(a, b),
        AddOp::RShift => Expr::RShift(a, b),
        AddOp::BinEq => Expr::BinEq(a, b),
        AddOp::BinNEq => Expr::BinNEq(a, b),
        AddOp::LE => Expr::LE(a, b),
        AddOp::GE => Expr::GE(a, b),
        AddOp::LT => Expr::LT(a, b),
        AddOp::GT => Expr::GT(a, b),
    }
}

/// Parses an expression at `p` (see [`p_expr`]).
fn parse_expr(ts: &Vec<Tok>, p: usize) -> (r: Option<(Expr, usize)>)
    requires
        p <= ts@.len(),
    ensures
        r matches Some((e, q)) ==> p_expr(toks_view(ts@), p as int) == Some((e@, q as int)) && p
            < q <= ts@.len(),
        r is None ==> p_expr(toks_view(ts@), p as int) is None,
    decreases ts@.len() - p, 4nat,
{
    let ghost tv = toks_view(ts@);
    match parse_unary(ts, p) {
        Some((lhs, q)) => {
            let ghost l0 = lhs@;
            let mut cur = lhs;
            let mut q2 = q;
            proof {
                lemma_p_fold(tv, l0, q as int);
            }
            loop
                invariant
                    tv == toks_view(ts@),
                    p < q <= q2 <= ts@.len(),
                    p_fold(tv, l0, q as int) == p_fold(tv, cur@, q2 as int),
                ensures
                    p < q <= q2 <= ts@.len(),
                    p_fold(tv, l0, q as int) == (cur@, q2 as int),
                decreases ts@.len() - q2,
            {
                let op = match tok_at(ts, q2) {
                    Some(t) => op_of_exec(t),
                    None => None,
                };
                match op {
                    Some(o) => {
                        match parse_unary(ts, q2 + 1) {
                            Some((rhs, q3)) => {
                                cur = mk_binary_exec(o, cur, rhs);
                                q2 = q3;
                            },
                            None => {
                                assert(p_fold(tv, cur@, q2 as int) == (cur@, q2 as int));
                                break ;
                            },
                        }
                    },
                    None => {
                        assert(p_fold(tv, cur@, q2 as int) == (cur@, q2 as int));
                        break ;
                    },
                }
            }
            assert(p_fold(tv, l0, q as int) == (cur@, q2 as int));
            assert(p_expr(tv, p as int) == Some(p_fold(tv, l0, q as int)));
            Some((cur, q2))
        },
        None => None,
    }
}

/// Parses a unary expression at `p` (see [`p_unary`]).
fn parse_unary(ts: &Vec<Tok>, p: usize) -> (r: Option<(Expr, usize)>)
    requires
        p <= ts@.len(),
    ensures
        r matches Some((e, q)) ==> p_unary(toks_view(ts@), p as int) == Some((e@, q as int)) && p
            < q <= ts@.len(),
        r is None ==> p_unary(toks_view(ts@), p as int) is None,
    decreases ts@.len() - p, 3nat,
{
    match tok_at(ts, p) {
        Some(Tok::AddrOf) => match parse_unary(ts, p + 1) {
            Some((e, q)) => Some((Expr::AddrOf(Box::new(e)), q)),
            None => None,
        },
        Some(Tok::Star) => match parse_unary(ts, p + 1) {
            Some((e, q)) => Some((Expr::Deref(Box::new(e)), q)),
            None => None,
        },
        _ => parse_primary(ts, p),
    }
}

/// Parses a primary expression at `p` (see [`p_primary`]).
fn parse_primary(ts: &Vec<Tok>, p: usize) -> (r: Option<(Expr, usize)>)
    requires
        p <= ts@.len(),
    ensures
        r matches Some((e, q)) ==> p_primary(toks_view(ts@), p as int) == Some((e@, q as int))
            && p < q <= ts@.len(),
        r is None ==> p_primary(toks_view(ts@), p as int) is None,
    decreases ts@.len() - p, 2nat,
{
    match tok_at(ts, p) {
        Some(Tok::Ident(n)) => {
            if matches!(tok_at(ts, p + 1), Some(Tok::LParen)) {
                let (args, q) = parse_args(ts, p + 2);
                if matches!(tok_at(ts, q), Some(Tok::RParen)) {
                    Some((Expr::Call { name: n.clone(), args }, q + 1))
                } else {
                    Some((Expr::Var(n.clone()), p + 1))
                }
            } else {
                Some((Expr::Var(n.clone()), p + 1))
            }
        },
        Some(Tok::IntLit(i)) => Some((Expr::Int(*i), p + 1)),
        Some(Tok::LParen) => match parse_expr(ts, p + 1) {
            Some((e, q)) => if matches!(tok_at(ts, q), Some(Tok::RParen)) {
                Some((e, q + 1))
            } else {
                None
            },
            None => None,
        },
        _ => None,
    }
}

/// Parses the arguments of a call at `p` (see [`p_args`]).
fn parse_args(ts: &Vec<Tok>, p: usize) -> (r: (Vec<Expr>, usize))
    requires
        p <= ts@.len(),
    ensures
        p_args(toks_view(ts@), p as int) == (exprs_view(r.0@), r.1 as int),
        p <= r.1 <= ts@.len(),
    decreases ts@.len() - p, 5nat,
{
    let ghost tv = toks_view(ts@);
    match parse_expr(ts, p) {
        Some((e, q)) => {
            let mut acc: Vec<Expr> = Vec::new();
            proof {
                lemma_exprs_view_push(acc@, e);
                assert(exprs_view(acc@) =~= Seq::<ExprV>::empty());
            }
            acc.push(e);
            assert(exprs_view(acc@) =~= seq![e@]);
            let mut q2 = q;
            loop
                invariant
                    tv == toks_view(ts@),
                    p < q2 <= ts@.len(),
                    p_args(tv, p as int) == p_args_tail(tv, exprs_view(acc@), q2 as int),
                decreases ts@.len() - q2,
            {
                if matches!(tok_at(ts, q2), Some(Tok::Comma)) {
                    match parse_expr(ts, q2 + 1) {
                        Some((e2, q3)) => {
                            proof {
                                lemma_exprs_view_push(acc@, e2);
                            }
                            acc.push(e2);
                            q2 = q3;
                        },
                        None => {
                            return (acc, q2 + 1);
                        },
                    }
                } else {
                    return (acc, q2);
                }
            }
        },
        None => {
            let acc: Vec<Expr> = Vec::new();
            assert(exprs_view(acc@) =~= Seq::<ExprV>::empty());
            (acc, p)
        },
    }
}

/// An identifier at `p` (see [`p_ident`]).
fn parse_ident(ts: &Vec<Tok>, p: usize) -> (r: Option<String>)
    ensures
        r matches Some(n) ==> p_ident(toks_view(ts@), p as int) == Some(n@) && p < ts@.len(),
        ts@.len() <= usize::MAX,
        r is None ==> p_ident(toks_view(ts@), p as int) is None,
{
    match tok_at(ts, p) {
        Some(Tok::Ident(n)) => Some(n.clone()),
        _ => None,
    }
}

/// A type at `p` (see [`p_type`]).
fn parse_type(ts: &Vec<Tok>, p: usize) -> (r: Option<(Type, usize)>)
    requires
        p <= ts@.len(),
    ensures
        r matches Some((t, q)) ==> p_type(toks_view(ts@), p as int) == Some((t, q as int)) && p < q
            <= ts@.len(),
        r is None ==> p_type(toks_view(ts@), p as int) is None,
{
    let ghost tv = toks_view(ts@);
    let base = match tok_at(ts, p) {
        Some(Tok::Void) => BaseType::Void,
        Some(Tok::U32) => BaseType::U32,
        _ => {
            return None;
        },
    };
    let mut k = p + 1;
    while matches!(tok_at(ts, k), Some(Tok::Star))
        invariant
            tv == toks_view(ts@),
            p + 1 <= k <= ts@.len(),
            star_run(tv, p + 1) == (k - p - 1) + star_run(tv, k as int),
        decreases ts@.len() - k,
    {
        k = k + 1;
    }
    let count = k - p - 1;
    Some((Type { base, ptr: count as u32 }, k))
}

/// A declaration at `p` (see [`p_decl`]).
fn parse_decl(ts: &Vec<Tok>, p: usize) -> (r: Option<(Stmt, usize)>)
    requires
        p <= ts@.len(),
    ensures
        r matches Some((st, q)) ==> p_decl(toks_view(ts@), p as int) == Some((st@, q as int)) && p
            < q <= ts@.len(),
        r is None ==> p_decl(toks_view(ts@), p as int) is None,
{
    let (ty, q) = match parse_type(ts, p) {
        Some(x) => x,
        None => {
            return None;
        },
    };
    let name = match parse_ident(ts, q) {
        Some(n) => n,
        None => {
            return None;
        },
    };
    if !matches!(tok_at(ts, q + 1), Some(Tok::Eq)) {
        return None;
    }
    let (init, q3) = match parse_expr(ts, q + 2) {
        Some(x) => x,
        None => {
            return None;
        },
    };
    if !matches!(tok_at(ts, q3), Some(Tok::Semi)) {
        return None;
    }
    Some((Stmt::Decl { ty, name, init }, q3 + 1))
}

/// An assignment target at `p` (see [`p_lvalue`]).
fn parse_lvalue(ts: &Vec<Tok>, p: usize) -> (r: Option<(Expr, usize)>)
    requires
        p <= ts@.len(),
    ensures
        r matches Some((e, q)) ==> p_lvalue(toks_view(ts@), p as int) == Some((e@, q as int)) && p
            < q <= ts@.len(),
        r is None ==> p_lvalue(toks_view(ts@), p as int) is None,
{
    match parse_ident(ts, p) {
        Some(n) => Some((Expr::Var(n), p + 1)),
        None => if matches!(tok_at(ts, p), Some(Tok::Star)) {
            match parse_expr(ts, p + 1) {
                Some((e, q)) => Some((Expr::Deref(Box::new(e)), q)),
                None => None,
            }
        } else {
            None
        },
    }
}

/// An assignment at `p` (see [`p_assign`]).
fn parse_assign(ts: &Vec<Tok>, p: usize) -> (r: Option<(Stmt, usize)>)
    requires
        p <= ts@.len(),
    ensures
        r matches Some((st, q)) ==> p_assign(toks_view(ts@), p as int) == Some((st@, q as int))
            && p < q <= ts@.len(),
        r is None ==> p_assign(toks_view(ts@), p as int) is None,
{
    let (target, q) = match parse_lvalue(ts, p) {
        Some(x) => x,
        None => {
            return None;
        },
    };
    if !matches!(tok_at(ts, q), Some(Tok::Eq)) {
        return None;
    }
    let (value, q2) = match parse_expr(ts, q + 1) {
        Some(x) => x,
        None => {
            return None;
        },
    };
    if !matches!(tok_at(ts, q2), Some(Tok::Semi)) {
        return None;
    }
    Some((Stmt::Assign { target, value }, q2 + 1))
}

/// A `return` at `p` (see [`p_return`]).
fn parse_return(ts: &Vec<Tok>, p: usize) -> (r: Option<(Stmt, usize)>)
    requires
        p <= ts@.len(),
    ensures
        r matches Some((st, q)) ==> p_return(toks_view(ts@), p as int) == Some((st@, q as int))
            && p < q <= ts@.len(),
        r is None ==> p_return(toks_view(ts@), p as int) is None,
{
    if !matches!(tok_at(ts, p), Some(Tok::Return)) {
        return None;
    }
    match parse_expr(ts, p + 1) {
        Some((e, q)) => if matches!(tok_at(ts, q), Some(Tok::Semi)) {
            Some((Stmt::Return(e), q + 1))
        } else {
            None
        },
        None => None,
    }
}

/// An expression statement at `p` (see [`p_expr_stmt`]).
fn parse_expr_stmt(ts: &Vec<Tok>, p: usize) -> (r: Option<(Stmt, usize)>)
    requires
        p <= ts@.len(),
    ensures
        r matches Some((st, q)) ==> p_expr_stmt(toks_view(ts@), p as int) == Some((st@, q as int))
            && p < q <= ts@.len(),
        r is None ==> p_expr_stmt(toks_view(ts@), p as int) is None,
{
    match parse_expr(ts, p) {
        Some((e, q)) => if matches!(tok_at(ts, q), Some(Tok::Semi)) {
            Some((Stmt::Expr(e), q + 1))
        } else {
            None
        },
        None => None,
    }
}

/// An `if` or a `while` at `p` (see [`p_block_stmt`]).
fn parse_block_stmt(ts: &Vec<Tok>, p: usize, is_if: bool) -> (r: Option<(Stmt, usize)>)
    requires
        p <= ts@.len(),
    ensures
        r matches Some((st, q)) ==> p_block_stmt(toks_view(ts@), p as int, is_if) == Some(
            (st@, q as int),
        ) && p < q <= ts@.len(),
        r is None ==> p_block_stmt(toks_view(ts@), p as int, is_if) is None,
    decreases ts@.len() - p, 1nat,
{
    let kw = match tok_at(ts, p) {
        Some(Tok::If) => is_if,
        Some(Tok::While) => !is_if,
        _ => false,
    };
    if !kw || !matches!(tok_at(ts, p + 1), Some(Tok::LParen)) {
        return None;
    }
    let (cond, q) = match parse_expr(ts, p + 2) {
        Some(x) => x,
        None => {
            return None;
        },
    };
    if !matches!(tok_at(ts, q), Some(Tok::RParen)) || !matches!(tok_at(ts, q + 1), Some(Tok::LBrace)) {
        return None;
    }
    let (body, q2) = parse_stmts(ts, q + 2);
    if !matches!(tok_at(ts, q2), Some(Tok::RBrace)) {
        return None;
    }
    if is_if {
        Some((Stmt::If { cond, body }, q2 + 1))
    } else {
        Some((Stmt::While { cond, body }, q2 + 1))
    }
}

/// A statement at `p` (see [`p_stmt`]).
fn parse_stmt(ts: &Vec<Tok>, p: usize) -> (r: Option<(Stmt, usize)>)
    requires
        p <= ts@.len(),
    ensures
        r matches Some((st, q)) ==> p_stmt(toks_view(ts@), p as int) == Some((st@, q as int)) && p
            < q <= ts@.len(),
        r is None ==> p_stmt(toks_view(ts@), p as int) is None,
    decreases ts@.len() - p, 2nat,
{
    if let Some(x) = parse_decl(ts, p) {
        return Some(x);
    }
    if let Some(x) = parse_assign(ts, p) {
        return Some(x);
    }
    if let Some(x) = parse_return(ts, p) {
        return Some(x);
    }
    if let Some(x) = parse_block_stmt(ts, p, true) {
        return Some(x);
    }
    if let Some(x) = parse_block_stmt(ts, p, false) {
        return Some(x);
    }
    parse_expr_stmt(ts, p)
}

/// The statements from `p` on (see [`p_stmts`]).
fn parse_stmts(ts: &Vec<Tok>, p: usize) -> (r: (Vec<Stmt>, usize))
    requires
        p <= ts@.len(),
    ensures
        p_stmts(toks_view(ts@), p as int) == (stmts_view(r.0@), r.1 as int),
        p <= r.1 <= ts@.len(),
    decreases ts@.len() - p, 3nat,
{
    let ghost tv = toks_view(ts@);
    let mut acc: Vec<Stmt> = Vec::new();
    let mut q = p;
    assert(stmts_view(acc@) =~= Seq::<StmtV>::empty());
    assert(Seq::<StmtV>::empty() + p_stmts(tv, p as int).0 =~= p_stmts(tv, p as int).0);
    loop
        invariant
            tv == toks_view(ts@),
            p <= q <= ts@.len(),
            p_stmts(tv, p as int) == (stmts_view(acc@) + p_stmts(tv, q as int).0, p_stmts(
                tv,
                q as int,
            ).1),
        decreases ts@.len() - q,
    {
        match parse_stmt(ts, q) {
            Some((st, q2)) => {
                proof {
                    lemma_stmts_view_push(acc@, st);
                    let rest = p_stmts(tv, q2 as int).0;
                    assert(stmts_view(acc@) + (seq![st@] + rest) =~= stmts_view(acc@).push(st@)
                        + rest);
                }
                acc.push(st);
                q = q2;
            },
            None => {
                assert(stmts_view(acc@) + Seq::<StmtV>::empty() =~= stmts_view(acc@));
                return (acc, q);
            },
        }
    }
}

/// A parameter at `p` (see [`p_param`]).
fn parse_param(ts: &Vec<Tok>, p: usize) -> (r: Option<((Type, String), usize)>)
    requires
        p <= ts@.len(),
    ensures
        r matches Some((x, q)) ==> p_param(toks_view(ts@), p as int) == Some(
            ((x.0, x.1@), q as int),
        ) && p < q <= ts@.len(),
        r is None ==> p_param(toks_view(ts@), p as int) is None,
{
    let (ty, q) = match parse_type(ts, p) {
        Some(x) => x,
        None => {
            return None;
        },
    };
    match parse_ident(ts, q) {
        Some(n) => Some(((ty, n), q + 1)),
        None => None,
    }
}

/// The parameters from `p` on (see [`p_params`]).
fn parse_params(ts: &Vec<Tok>, p: usize) -> (r: (Vec<(Type, String)>, usize))
    requires
        p <= ts@.len(),
    ensures
        p_params(toks_view(ts@), p as int) == (crate::ast::params_view(r.0@), r.1 as int),
        p <= r.1 <= ts@.len(),
{
    let ghost tv = toks_view(ts@);
    let mut acc: Vec<(Type, String)> = Vec::new();
    match parse_param(ts, p) {
        Some((x, q)) => {
            acc.push(x);
            assert(crate::ast::params_view(acc@) =~= seq![(x.0, x.1@)]);
            let mut q2 = q;
            loop
                invariant
                    tv == toks_view(ts@),
                    p < q2 <= ts@.len(),
                    p_params(tv, p as int) == p_params_tail(
                        tv,
                        crate::ast::params_view(acc@),
                        q2 as int,
                    ),
                decreases ts@.len() - q2,
            {
                if matches!(tok_at(ts, q2), Some(Tok::Comma)) {
                    match parse_param(ts, q2 + 1) {
                        Some((x2, q3)) => {
                            let ghost before = crate::ast::params_view(acc@);
                            acc.push(x2);
                            assert(crate::ast::params_view(acc@) =~= before.push((x2.0, x2.1@)));
                            q2 = q3;
                        },
                        None => {
                            return (acc, q2 + 1);
                        },
                    }
                } else {
                    return (acc, q2);
                }
            }
        },
        None => {
            assert(crate::ast::params_view(acc@) =~= Seq::<(Type, Seq<char>)>::empty());
            (acc, p)
        },
    }
}

/// A function at `p` (see [`p_function`]).
fn parse_function(ts: &Vec<Tok>, p: usize) -> (r: Option<(Function, usize)>)
    requires
        p <= ts@.len(),
    ensures
        r matches Some((f, q)) ==> p_function(toks_view(ts@), p as int) == Some((f@, q as int))
            && p < q <= ts@.len(),
        r is None ==> p_function(toks_view(ts@), p as int) is None,
{
    let (return_ty, q1) = match parse_type(ts, p) {
        Some(x) => x,
        None => {
            return None;
        },
    };
    let name = match parse_ident(ts, q1) {
        Some(n) => n,
        None => {
            return None;
        },
    };
    if !matches!(tok_at(ts, q1 + 1), Some(Tok::LParen)) {
        return None;
    }
    let (params, q2) = parse_params(ts, q1 + 2);
    if !matches!(tok_at(ts, q2), Some(Tok::RParen)) || !matches!(tok_at(ts, q2 + 1), Some(Tok::LBrace)) {
        return None;
    }
    let (body, q3) = parse_stmts(ts, q2 + 2);
    if !matches!(tok_at(ts, q3), Some(Tok::RBrace)) {
        return None;
    }
    Some((Function { return_ty, name, params, body }, q3 + 1))
}

/// The views of a sequence of functions.
pub open spec fn functions_view(s: Seq<Function>) -> Seq<FunctionV> {
    Seq::new(s.len(), |i: int| s[i]@)
}

/// Parses a whole program from its tokens (see [`p_program`]).
pub fn parse_tokens(ts: &Vec<Tok>) -> (r: Option<Program>)
    ensures
        r matches Some(pr) ==> p_program(toks_view(ts@)) == Some(pr@),
        r is None ==> p_program(toks_view(ts@)) is None,
{
    let ghost tv = toks_view(ts@);
    let mut funcs: Vec<Function> = Vec::new();
    let mut q: usize = 0;
    assert(functions_view(funcs@) + p_functions(tv, 0).0 =~= p_functions(tv, 0).0);
    loop
        invariant
            tv == toks_view(ts@),
            q <= ts@.len(),
            p_functions(tv, 0) == (functions_view(funcs@) + p_functions(tv, q as int).0, p_functions(
                tv,
                q as int,
            ).1),
        ensures
            q <= ts@.len(),
            p_functions(tv, 0) == (functions_view(funcs@), q as int),
        decreases ts@.len() - q,
    {
        match parse_function(ts, q) {
            Some((f, q2)) => {
                proof {
                    let rest = p_functions(tv, q2 as int).0;
                    assert(functions_view(funcs@.push(f)) =~= functions_view(funcs@).push(f@));
                    assert(functions_view(funcs@) + (seq![f@] + rest) =~= functions_view(funcs@).push(
                        f@,
                    ) + rest);
                }
                funcs.push(f);
                q = q2;
            },
            None => {
                assert(functions_view(funcs@) + Seq::<FunctionV>::empty() =~= functions_view(funcs@));
                break ;
            },
        }
    }
    if funcs.len() >= 1 && q == ts.len() {
        let pr = Program { funcs };
        assert(pr@.funcs =~= functions_view(pr.funcs@));
        Some(pr)
    } else {
        None
    }
}

/// Law: layout between tokens does not matter. Cut a text into `u` and
/// `v` at a boundary between two of its tokens (or at its start or end),
/// so that the tokens of `u + v` are those of `u` followed by those of
/// `v`; inserting a non-empty run of whitespace `w` there leaves the
/// outcome of parsing unchanged: it succeeds exactly when parsing `u + v`
/// does, with the same program.
pub proof fn lemma_parse_whitespace_insert(u: Seq<char>, w: Seq<char>, v: Seq<char>)
    requires
        all_ws(w),
        w.len() > 0,
        lex_spec(u) is Tokens,
        lex_spec(v) is Tokens,
        lex_spec(u + v) == LexSpec::Tokens(lex_spec(u)->Tokens_0 + lex_spec(v)->Tokens_0),
    ensures
        parse_result(u + w + v) is Ok <==> parse_result(u + v) is Ok,
        parse_result(u + v) is Ok ==> parse_result(u + w + v) == parse_result(u + v),
{
    let tu = lex_spec(u)->Tokens_0;
    let tv = lex_spec(v)->Tokens_0;
    if tu.len() + tv.len() > 0 {
        lemma_lex_whitespace_join(u, w, v);
    } else {
        lemma_lex_empty(u);
        lemma_lex_empty(v);
        assert(u + w + v =~= w);
        lemma_lex_empty(w);
        assert(tu + tv =~= Seq::<TokV>::empty());
        assert(p_functions(Seq::<TokV>::empty(), 0).0.len() == 0);
    }
}

/// Law: replacing the run of whitespace `w1` between `u` and `v` by
/// another non-empty run `w2` changes nothing: parsing gives the same
/// program, or the same error.
pub proof fn lemma_parse_whitespace_replace(u: Seq<char>, w1: Seq<char>, w2: Seq<char>, v: Seq<char>)
    requires
        all_ws(w1),
        w1.len() > 0,
        all_ws(w2),
        w2.len() > 0,
        lex_spec(u) is Tokens,
        lex_spec(v) is Tokens,
    ensures
        parse_result(u + w1 + v) == parse_result(u + w2 + v),
{
    let tu = lex_spec(u)->Tokens_0;
    let tv = lex_spec(v)->Tokens_0;
    if tu.len() + tv.len() > 0 {
        lemma_lex_whitespace_join(u, w1, v);
        lemma_lex_whitespace_join(u, w2, v);
    } else {
        lemma_lex_empty(u);
        lemma_lex_empty(v);
        assert(u + w1 + v =~= w1);
        assert(u + w2 + v =~= w2);
        lemma_lex_empty(w1);
        lemma_lex_empty(w2);
    }
}

/// The error for tokens that do not form a program.
pub open spec fn parse_error_text() -> Seq<char> {
    "parse error(s):\n  the tokens do not form a program\n"@
}

/// What parsing a source text gives: the program, or an error message
/// that starts with the stage that failed. A lexing error names what was
/// found at the place of the error and what would have been accepted
/// there (see [`lex_error_text`]). Lexing must not overflow.
pub open spec fn parse_result(input: Seq<char>) -> Result<ProgramV, Seq<char>> {
    match lex_spec(input) {
        LexSpec::Tokens(ts) => match p_program(ts) {
            Some(pv) => Ok(pv),
            None => Err(parse_error_text()),
        },
        LexSpec::Failed(pos) => Err(lex_error_text(input, pos)),
        LexSpec::Overflow => Err(Seq::empty()),
    }
}

/// Law: a program that parses has at least one function.
pub proof fn lemma_program_has_function(input: Seq<char>)
    ensures
        parse_result(input) matches Ok(pv) ==> pv.funcs.len() >= 1,
{
}

/// The expressions that the parser can build: no string or array
/// literal appears in them.
pub open spec fn expr_parsed(e: ExprV) -> bool
    decreases e,
{
    match e {
        ExprV::Int(_) => true,
        ExprV::Var(_) => true,
        ExprV::Call { args, .. } => exprs_parsed(args),
        ExprV::AddrOf(a) => expr_parsed(*a),
        ExprV::Deref(a) => expr_parsed(*a),
        ExprV::Add(a, b) | ExprV::Sub(a, b) | ExprV::And(a, b) | ExprV::Or(a, b)
        | ExprV::LShift(a, b) | ExprV::RShift(a, b) | ExprV::BinEq(a, b) | ExprV::BinNEq(a, b)
        | ExprV::LE(a, b) | ExprV::GE(a, b) | ExprV::GT(a, b) | ExprV::LT(a, b) => expr_parsed(*a)
            && expr_parsed(*b),
        ExprV::Str(_) => false,
        ExprV::ArrayLit(_) => false,
    }
}

/// Every expression of `s` is one that the parser can build.
pub open spec fn exprs_parsed(s: Seq<ExprV>) -> bool
    decreases s,
{
    if s.len() == 0 {
        true
    } else {
        expr_parsed(s.last()) && exprs_parsed(s.drop_last())
    }
}

/// The statements that the parser can build: no `for` loop, an
/// assignment target that is a variable or a `*` expression, and only
/// expressions that it can build.
pub open spec fn stmt_parsed(s: StmtV) -> bool
    decreases s,
{
    match s {
        StmtV::Return(e) => expr_parsed(e),
        StmtV::Decl { init, .. } => expr_parsed(init),
        StmtV::Assign { target, value } => (target is Var || target is Deref) && expr_parsed(target)
            && expr_parsed(value),
        StmtV::If { cond, body } => expr_parsed(cond) && stmts_parsed(body),
        StmtV::While { cond, body } => expr_parsed(cond) && stmts_parsed(body),
        StmtV::For { .. } => false,
        StmtV::Expr(e) => expr_parsed(e),
    }
}

/// Every statement of `ss` is one that the parser can build.
pub open spec fn stmts_parsed(ss: Seq<StmtV>) -> bool
    decreases ss,
{
    if ss.len() == 0 {
        true
    } else {
        stmt_parsed(ss[0]) && stmts_parsed(ss.subrange(1, ss.len() as int))
    }
}

/// Every function body of `pv` is made of statements that the parser
/// can build.
pub open spec fn program_parsed(pv: ProgramV) -> bool {
    forall|i: int| 0 <= i < pv.funcs.len() ==> stmts_parsed(#[trigger] pv.funcs[i].body)
}

/// A binary expression built from two buildable operands is buildable.
proof fn lemma_parsed_binary(op: AddOp, l: ExprV, r: ExprV)
    requires
        expr_parsed(l),
        expr_parsed(r),
    ensures
        expr_parsed(mk_binary(op, l, r)),
{
}

/// An expression that the parser reads is buildable.
proof fn lemma_parsed_expr(ts: Seq<TokV>, p: int)
    ensures
        p_expr(ts, p) matches Some((e, _)) ==> expr_parsed(e),
    decreases ts.len() - p, 4nat,
{
    lemma_parsed_unary(ts, p);
    match p_unary(ts, p) {
        Some((lhs, q)) => if p < q <= ts.len() {
            lemma_parsed_fold(ts, lhs, q);
        },
        None => {},
    }
}

/// The operators after a buildable expression keep it buildable.
proof fn lemma_parsed_fold(ts: Seq<TokV>, lhs: ExprV, q: int)
    requires
        expr_parsed(lhs),
    ensures
        expr_parsed(p_fold(ts, lhs, q).0),
    decreases ts.len() - q, 1nat,
{
    if 0 <= q < ts.len() && op_of(ts[q]) is Some {
        lemma_parsed_unary(ts, q + 1);
        match p_unary(ts, q + 1) {
            Some((rhs, q2)) => if q < q2 <= ts.len() {
                lemma_parsed_binary(op_of(ts[q])->0, lhs, rhs);
                lemma_parsed_fold(ts, mk_binary(op_of(ts[q])->0, lhs, rhs), q2);
            },
            None => {},
        }
    }
}

/// A unary expression that the parser reads is buildable.
proof fn lemma_parsed_unary(ts: Seq<TokV>, p: int)
    ensures
        p_unary(ts, p) matches Some((e, _)) ==> expr_parsed(e),
    decreases ts.len() - p, 3nat,
{
    if tok_is(ts, p, TokV::AddrOf) || tok_is(ts, p, TokV::Star) {
        lemma_parsed_unary(ts, p + 1);
    } else {
        lemma_parsed_primary(ts, p);
    }
}

/// A primary expression that the parser reads is buildable.
proof fn lemma_parsed_primary(ts: Seq<TokV>, p: int)
    ensures
        p_primary(ts, p) matches Some((e, _)) ==> expr_parsed(e),
    decreases ts.len() - p, 2nat,
{
    if 0 <= p < ts.len() {
        match ts[p] {
            TokV::Ident(n) => if tok_is(ts, p + 1, TokV::LParen) {
                lemma_parsed_args(ts, p + 2);
            },
            TokV::LParen => {
                lemma_parsed_expr(ts, p + 1);
            },
            _ => {},
        }
    }
}

/// The arguments that the parser reads are buildable.
proof fn lemma_parsed_args(ts: Seq<TokV>, p: int)
    requires
        0 <= p <= ts.len(),
    ensures
        exprs_parsed(p_args(ts, p).0),
    decreases ts.len() - p, 5nat,
{
    lemma_parsed_expr(ts, p);
    match p_expr(ts, p) {
        Some((e, q)) => if p < q <= ts.len() {
            assert(seq![e].drop_last() =~= Seq::<ExprV>::empty());
            assert(seq![e].last() == e);
            assert(exprs_parsed(Seq::<ExprV>::empty()));
            lemma_parsed_args_tail(ts, seq![e], q);
        },
        None => {},
    }
}

/// The further arguments that the parser reads keep them buildable.
proof fn lemma_parsed_args_tail(ts: Seq<TokV>, acc: Seq<ExprV>, q: int)
    requires
        0 <= q <= ts.len(),
        exprs_parsed(acc),
    ensures
        exprs_parsed(p_args_tail(ts, acc, q).0),
    decreases ts.len() - q, 1nat,
{
    if tok_is(ts, q, TokV::Comma) {
        lemma_parsed_expr(ts, q + 1);
        match p_expr(ts, q + 1) {
            Some((e, q2)) => if q < q2 <= ts.len() {
                assert(acc.push(e).drop_last() =~= acc);
                lemma_parsed_args_tail(ts, acc.push(e), q2);
            },
            None => {},
        }
    }
}

/// A statement that the parser reads is buildable.
proof fn lemma_parsed_stmt(ts: Seq<TokV>, p: int)
    ensures
        p_stmt(ts, p) matches Some((s, _)) ==> stmt_parsed(s),
    decreases ts.len() - p, 2nat,
{
    lemma_parsed_block(ts, p, true);
    lemma_parsed_block(ts, p, false);
    match p_type(ts, p) {
        Some((ty, q)) => {
            lemma_parsed_expr(ts, q + 2);
        },
        None => {},
    }
    lemma_parsed_expr(ts, p);
    lemma_parsed_expr(ts, p + 1);
    match p_lvalue(ts, p) {
        Some((target, q)) => {
            lemma_parsed_expr(ts, q + 1);
        },
        None => {},
    }
}

/// An `if` or `while` that the parser reads is buildable.
proof fn lemma_parsed_block(ts: Seq<TokV>, p: int, is_if: bool)
    ensures
        p_block_stmt(ts, p, is_if) matches Some((s, _)) ==> stmt_parsed(s),
    decreases ts.len() - p, 1nat,
{
    let kw = if is_if {
        TokV::If
    } else {
        TokV::While
    };
    if tok_is(ts, p, kw) && tok_is(ts, p + 1, TokV::LParen) {
        lemma_parsed_expr(ts, p + 2);
        lemma_p_expr(ts, p + 2);
        match p_expr(ts, p + 2) {
            Some((cond, q)) => if tok_is(ts, q, TokV::RParen) && tok_is(ts, q + 1, TokV::LBrace) {
                lemma_parsed_stmts(ts, q + 2);
            },
            None => {},
        }
    }
}

/// The statements that the parser reads are buildable.
proof fn lemma_parsed_stmts(ts: Seq<TokV>, p: int)
    requires
        0 <= p <= ts.len(),
    ensures
        stmts_parsed(p_stmts(ts, p).0),
    decreases ts.len() - p, 3nat,
{
    lemma_parsed_stmt(ts, p);
    match p_stmt(ts, p) {
        Some((st, q)) => if p < q <= ts.len() {
            lemma_parsed_stmts(ts, q);
            let all = seq![st] + p_stmts(ts, q).0;
            assert(all.subrange(1, all.len() as int) =~= p_stmts(ts, q).0);
        },
        None => {},
    }
}

/// The body of a function that the parser reads is buildable.
proof fn lemma_parsed_function(ts: Seq<TokV>, p: int)
    ensures
        p_function(ts, p) matches Some((f, _)) ==> stmts_parsed(f.body),
{
    match p_type(ts, p) {
        Some((return_ty, q1)) => if p_ident(ts, q1) is Some && tok_is(ts, q1 + 1, TokV::LParen) {
            lemma_p_params(ts, q1 + 2);
            let q2 = p_params(ts, q1 + 2).1;
            if tok_is(ts, q2, TokV::RParen) && tok_is(ts, q2 + 1, TokV::LBrace) {
                lemma_parsed_stmts(ts, q2 + 2);
            }
        },
        None => {},
    }
}

/// The functions that the parser reads have buildable bodies.
proof fn lemma_parsed_functions(ts: Seq<TokV>, p: int)
    ensures
        forall|i: int|
            0 <= i < p_functions(ts, p).0.len() ==> stmts_parsed(#[trigger] p_functions(ts, p).0[i].body),
    decreases ts.len() - p,
{
    match p_function(ts, p) {
        Some((f, q)) => {
            lemma_p_function(ts, p);
            lemma_parsed_function(ts, p);
            lemma_parsed_functions(ts, q);
            let rest = p_functions(ts, q).0;
            let all = seq![f] + rest;
            assert(p_functions(ts, p).0 == all);
            assert forall|i: int| 0 <= i < all.len() implies stmts_parsed(#[trigger] all[i].body) by {
                if i > 0 {
                    assert(all[i] == rest[i - 1]);
                }
            }
        },
        None => {},
    }
}

/// Law: a program that the parser reads from tokens has at least one
/// function, and holds only constructs of the source language: no string
/// literal, no array literal, no `for` loop, and every assignment target
/// is a variable or a `*` expression.
pub proof fn lemma_parsed_tokens_shape(ts: Seq<TokV>)
    ensures
        p_program(ts) matches Some(pv) ==> pv.funcs.len() >= 1 && program_parsed(pv),
{
    lemma_parsed_functions(ts, 0);
}

/// Law: the same of a program that `parse_program` reads from a text.
pub proof fn lemma_parsed_program_shape(input: Seq<char>)
    ensures
        parse_result(input) matches Ok(pv) ==> pv.funcs.len() >= 1 && program_parsed(pv),
{
    match lex_spec(input) {
        LexSpec::Tokens(ts) => {
            lemma_parsed_tokens_shape(ts);
        },
        _ => {},
    }
}

/// The message of [`parse_error_text`].
fn parse_error() -> (m: String)
    ensures
        m@ == parse_error_text(),
{
    let mut m = String::new();
    m.append("parse error(s):\n  the tokens do not form a program\n");
    m
}

/// Parses a source text: lexes it, then parses its tokens as a program
/// of at least one function. An integer literal of the text must fit in
/// an `i64` (see [`lex`], which tells when one does not).
pub fn parse_program(input: &str) -> (r: Result<Program, String>)
    requires
        !(lex_spec(input@) is Overflow),
    ensures
        match parse_result(input@) {
            Ok(pv) => r matches Ok(pr) && pr@ == pv,
            Err(e) => r matches Err(m) && m@ == e,
        },
{
    let tokens = match lex(input) {
        LexOutcome::Tokens(ts) => ts,
        LexOutcome::Failed(pos) => {
            return Err(lex_error_message(input, pos));
        },
        LexOutcome::Overflow => {
            return Err(String::new());
        },
    };
    match parse_tokens(&tokens) {
        Some(p) => Ok(p),
        None => Err(parse_error()),
    }
}

} // verus!
