//! Rendering of values as text: decimal numbers, quoted strings,
//! expressions in their debugging notation, and indentation of lines.

use vstd::prelude::*;
use vstd::string::StringExecFns;
use crate::ast::{Expr, ExprV, exprs_view};

verus! {

/// Appends one character to a string.
///
/// Calls `String::push`, which adds `c` at the end of the string.
#[verifier::external_body]
pub(crate) fn push_char(s: &mut String, c: char)
    ensures
        final(s)@ == old(s)@.push(c),
{
    s.push(c);
}

/// What std's `Debug` formatting of a string slice produces: the string
/// between double quotes, with some characters escaped.
pub uninterp spec fn debug_str(s: Seq<char>) -> Seq<char>;

/// A character that `Debug` formatting never escapes inside a string:
/// an ASCII letter or digit, or `_`.
pub open spec fn is_plain_char(c: char) -> bool {
    ('a' <= c && c <= 'z') || ('A' <= c && c <= 'Z') || ('0' <= c && c <= '9') || c == '_'
}

/// Formats a string with std's `Debug` implementation for `str`
/// (`format!("{:?}", s)`).
///
/// The result is named by `debug_str`. Std escapes only quotes,
/// backslashes, control and non-printable characters, so a string made of
/// ASCII letters, digits and `_` comes out unchanged between two `"`.
/// Which escape std writes for the other characters is left unsaid.
#[verifier::external_body]
fn debug_quote(s: &str) -> (r: String)
    ensures
        r@ == debug_str(s@),
        (forall|i: int| 0 <= i < s@.len() ==> is_plain_char(#[trigger] s@[i])) ==> r@ == seq!['"']
            + s@ + seq!['"'],
{
    format!("{:?}", s)
}

/// The decimal digit character for `d < 10`.
pub open spec fn digit_char(d: nat) -> char {
    (d + 48) as char
}

/// The decimal notation of a natural number, without leading zeros.
pub open spec fn nat_text(n: nat) -> Seq<char>
    decreases n,
{
    if n < 10 {
        seq![digit_char(n)]
    } else {
        nat_text(n / 10).push(digit_char(n % 10))
    }
}

/// The decimal notation of an integer, with a `-` before a negative one.
pub open spec fn int_text(i: int) -> Seq<char> {
    if i < 0 {
        seq!['-'] + nat_text((-i) as nat)
    } else {
        nat_text(i as nat)
    }
}

/// Appends the decimal notation of `n`.
pub fn push_u64(out: &mut String, n: u64)
    ensures
        final(out)@ == old(out)@ + nat_text(n as nat),
    decreases n,
{
    if n >= 10 {
        push_u64(out, n / 10);
    }
    let d: u8 = (n % 10) as u8;
    push_char(out, (d + 48u8) as char);
    proof {
        if n >= 10 {
            assert(nat_text(n as nat) == nat_text((n / 10) as nat).push(digit_char((n % 10) as nat)));
        }
    }
    assert(final(out)@ =~= old(out)@ + nat_text(n as nat));
}

/// Appends the decimal notation of `i`.
pub fn push_i64(out: &mut String, i: i64)
    ensures
        final(out)@ == old(out)@ + int_text(i as int),
{
    if i < 0 {
        push_char(out, '-');
        let m: u64 = ((-(i + 1)) as u64) + 1;
        push_u64(out, m);
        assert(final(out)@ =~= old(out)@ + int_text(i as int));
    } else {
        push_u64(out, i as u64);
    }
}

/// Appends a string in std's `Debug` notation.
pub fn push_debug_str(out: &mut String, s: &String)
    ensures
        final(out)@ == old(out)@ + debug_str(s@),
        (forall|i: int| 0 <= i < s@.len() ==> is_plain_char(#[trigger] s@[i])) ==> final(out)@
            == old(out)@ + seq!['"'] + s@ + seq!['"'],
{
    let q = debug_quote(s.as_str());
    out.append(q.as_str());
    assert((forall|i: int| 0 <= i < s@.len() ==> is_plain_char(#[trigger] s@[i])) ==> out@
        =~= old(out)@ + seq!['"'] + s@ + seq!['"']);
}


/// The `Debug` notation of a binary expression: its variant name and
/// the notations of its two operands.
pub open spec fn binary_debug(tag: Seq<char>, a: Seq<char>, b: Seq<char>) -> Seq<char> {
    tag + "("@ + a + ", "@ + b + ")"@
}

/// An expression in the notation of its derived `Debug` implementation
/// (`{:?}`), such as `Add(Int(1), Var("x"))`.
pub open spec fn expr_debug(e: ExprV) -> Seq<char>
    decreases e,
{
    match e {
        ExprV::Int(i) => "Int("@ + int_text(i as int) + ")"@,
        ExprV::Var(s) => "Var("@ + debug_str(s) + ")"@,
        ExprV::Call { name, args } => "Call { name: "@ + debug_str(name) + ", args: ["@
            + exprs_debug(args) + "] }"@,
        ExprV::AddrOf(a) => "AddrOf("@ + expr_debug(*a) + ")"@,
        ExprV::Deref(a) => "Deref("@ + expr_debug(*a) + ")"@,
        ExprV::Add(a, b) => binary_debug("Add"@, expr_debug(*a), expr_debug(*b)),
        ExprV::Sub(a, b) => binary_debug("Sub"@, expr_debug(*a), expr_debug(*b)),
        ExprV::And(a, b) => binary_debug("And"@, expr_debug(*a), expr_debug(*b)),
        ExprV::Or(a, b) => binary_debug("Or"@, expr_debug(*a), expr_debug(*b)),
        ExprV::LShift(a, b) => binary_debug("LShift"@, expr_debug(*a), expr_debug(*b)),
        ExprV::RShift(a, b) => binary_debug("RShift"@, expr_debug(*a), expr_debug(*b)),
        ExprV::BinEq(a, b) => binary_debug("BinEq"@, expr_debug(*a), expr_debug(*b)),
        ExprV::BinNEq(a, b) => binary_debug("BinNEq"@, expr_debug(*a), expr_debug(*b)),
        ExprV::LE(a, b) => binary_debug("LE"@, expr_debug(*a), expr_debug(*b)),
        ExprV::GE(a, b) => binary_debug("GE"@, expr_debug(*a), expr_debug(*b)),
        ExprV::GT(a, b) => binary_debug("GT"@, expr_debug(*a), expr_debug(*b)),
        ExprV::LT(a, b) => binary_debug("LT"@, expr_debug(*a), expr_debug(*b)),
        ExprV::Str(s) => "Str("@ + debug_str(s) + ")"@,
        ExprV::ArrayLit(items) => "ArrayLit(["@ + exprs_debug(items) + "])"@,
    }
}

/// A list of expressions in `Debug` notation, separated by `, `.
pub open spec fn exprs_debug(s: Seq<ExprV>) -> Seq<char>
    decreases s,
{
    if s.len() == 0 {
        Seq::empty()
    } else if s.len() == 1 {
        expr_debug(s[0])
    } else {
        exprs_debug(s.drop_last()) + ", "@ + expr_debug(s.last())
    }
}

/// The name of the variant of a binary expression.
fn binary_tag(e: &Expr) -> (tag: &'static str)
    ensures
        match e@ {
            ExprV::Add(..) => tag@ == "Add"@,
            ExprV::Sub(..) => tag@ == "Sub"@,
            ExprV::And(..) => tag@ == "And"@,
            ExprV::Or(..) => tag@ == "Or"@,
            ExprV::LShift(..) => tag@ == "LShift"@,
            ExprV::RShift(..) => tag@ == "RShift"@,
            ExprV::BinEq(..) => tag@ == "BinEq"@,
            ExprV::BinNEq(..) => tag@ == "BinNEq"@,
            ExprV::LE(..) => tag@ == "LE"@,
            ExprV::GE(..) => tag@ == "GE"@,
            ExprV::GT(..) => tag@ == "GT"@,
            ExprV::LT(..) => tag@ == "LT"@,
            _ => true,
        },
{
    match e {
        Expr::Add(..) => "Add",
        Expr::Sub(..) => "Sub",
        Expr::And(..) => "And",
        Expr::Or(..) => "Or",
        Expr::LShift(..) => "LShift",
        Expr::RShift(..) => "RShift",
        Expr::BinEq(..) => "BinEq",
        Expr::BinNEq(..) => "BinNEq",
        Expr::LE(..) => "LE",
        Expr::GE(..) => "GE",
        Expr::GT(..) => "GT",
        Expr::LT(..) => "LT",
        _ => "",
    }
}

/// Appends a list of expressions in `Debug` notation, separated by `, `.
fn push_exprs_debug(out: &mut String, items: &Vec<Expr>)
    ensures
        final(out)@ == old(out)@ + exprs_debug(exprs_view(items@)),
    decreases items@, 0nat,
{
    let n = items.len();
    let mut i: usize = 0;
    while i < n
        invariant
            n == items@.len(),
            0 <= i <= n,
            out@ == old(out)@ + exprs_debug(exprs_view(items@.take(i as int))),
        decreases n - i,
    {
        if i > 0 {
            out.append(", ");
        }
        push_expr_debug(out, &items[i]);
        proof {
            crate::ast::lemma_exprs_view_take_push(items@, i as int);
            let prev = exprs_view(items@.take(i as int));
            let next = exprs_view(items@.take(i + 1));
            assert(next.drop_last() =~= prev);
            if i > 0 {
                assert(out@ =~= old(out)@ + exprs_debug(next));
            } else {
                assert(out@ =~= old(out)@ + exprs_debug(next));
            }
        }
        i = i + 1;
    }
    assert(items@.take(n as int) =~= items@);
}

/// Appends an expression in its `Debug` notation.
pub fn push_expr_debug(out: &mut String, e: &Expr)
    ensures
        final(out)@ == old(out)@ + expr_debug(e@),
    decreases e, 1nat,
{
    match e {
        Expr::Int(i) => {
            out.append("Int(");
            push_i64(out, *i);
            out.append(")");
        },
        Expr::Var(s) => {
            out.append("Var(");
            push_debug_str(out, s);
            out.append(")");
        },
        Expr::Call { name, args } => {
            out.append("Call { name: ");
            push_debug_str(out, name);
            out.append(", args: [");
            push_exprs_debug(out, args);
            out.append("] }");
        },
        Expr::AddrOf(a) => {
            out.append("AddrOf(");
            push_expr_debug(out, a);
            out.append(")");
        },
        Expr::Deref(a) => {
            out.append("Deref(");
            push_expr_debug(out, a);
            out.append(")");
        },
        Expr::Add(a, b) | Expr::Sub(a, b) | Expr::And(a, b) | Expr::Or(a, b)
        | Expr::LShift(a, b) | Expr::RShift(a, b) | Expr::BinEq(a, b) | Expr::BinNEq(a, b)
        | Expr::LE(a, b) | Expr::GE(a, b) | Expr::GT(a, b) | Expr::LT(a, b) => {
            let tag = binary_tag(e);
            out.append(tag);
            out.append("(");
            push_expr_debug(out, a);
            out.append(", ");
            push_expr_debug(out, b);
            out.append(")");
        },
        Expr::Str(s) => {
            out.append("Str(");
            push_debug_str(out, s);
            out.append(")");
        },
        Expr::ArrayLit(items) => {
            out.append("ArrayLit([");
            push_exprs_debug(out, items);
            out.append("])");
        },
    }
    assert(final(out)@ =~= old(out)@ + expr_debug(e@));
}

/// The number of characters before the first `'\n'` of `s`, or the
/// length of `s` when it has none.
pub open spec fn line_len(s: Seq<char>) -> nat
    decreases s.len(),
{
    if s.len() == 0 || s[0] == '\n' {
        0
    } else {
        1 + line_len(s.subrange(1, s.len() as int))
    }
}

/// The lines of `s`, as std's `str::lines` splits them, each written
/// after four spaces and followed by `'\n'`. A line ends at `'\n'`, and a
/// `'\r'` just before that `'\n'` is not part of the line; the last line
/// needs no `'\n'`, and no empty line follows a final `'\n'`.
pub open spec fn indent_lines(s: Seq<char>) -> Seq<char>
    decreases s.len(),
{
    if s.len() == 0 {
        Seq::empty()
    } else {
        let k = line_len(s);
        if k < s.len() {
            let line = s.take(k as int);
            let line = if line.len() > 0 && line.last() == '\r' {
                line.drop_last()
            } else {
                line
            };
            "    "@ + line + "\n"@ + indent_lines(s.skip(k + 1 as int))
        } else {
            "    "@ + s + "\n"@
        }
    }
}

/// The first line of `t` has `m` characters when `t[m]` is the first
/// `'\n'`, or when there is none and `m` is the length.
proof fn lemma_line_len(t: Seq<char>, m: int)
    requires
        0 <= m <= t.len(),
        forall|k: int| 0 <= k < m ==> t[k] != '\n',
        m < t.len() ==> t[m] == '\n',
    ensures
        line_len(t) == m,
    decreases m,
{
    if m > 0 {
        let rest = t.subrange(1, t.len() as int);
        assert forall|k: int| 0 <= k < m - 1 implies rest[k] != '\n' by {
            assert(rest[k] == t[k + 1]);
        }
        if m - 1 < rest.len() {
            assert(rest[m - 1] == t[m]);
        }
        lemma_line_len(rest, m - 1);
    }
}

/// Writes each line of `s` after four spaces, as
/// `for l in s.lines() { writeln!(out, "    {}", l) }` does.
pub fn indent(s: &str) -> (r: String)
    ensures
        r@ == indent_lines(s@),
{
    let mut out = String::new();
    let mut cur = String::new();
    let mut cr = false;
    let mut open = false;
    let ghost mut j: int = 0;
    assert(s@.skip(0) =~= s@);
    for c in it: s.chars()
        invariant
            it.seq() == s@,
            0 <= j <= it.index() <= s@.len(),
            open <==> j < it.index(),
            cur@ + (if cr { seq!['\r'] } else { Seq::<char>::empty() }) == s@.subrange(j, it.index() as int),
            cr || cur@.len() == 0 || cur@.last() != '\r',
            forall|k: int| j <= k < it.index() ==> s@[k] != '\n',
            out@ + indent_lines(s@.skip(j)) == indent_lines(s@),
    {
        let ghost i = it.index();
        assert(c == s@[i]);
        if c == '\n' {
            proof {
                let t = s@.skip(j);
                lemma_line_len(t, i - j);
                let line = t.take(i - j);
                assert(line =~= s@.subrange(j, i));
                assert(t.skip(i - j + 1) =~= s@.skip(i + 1));
                if cr {
                    assert(line.drop_last() =~= cur@);
                } else {
                    assert(line =~= cur@);
                }
            }
            out.append("    ");
            out.append(cur.as_str());
            out.append("\n");
            cur = String::new();
            cr = false;
            open = false;
            proof {
                j = i + 1;
            }
        } else {
            if cr {
                push_char(&mut cur, '\r');
            }
            if c == '\r' {
                cr = true;
            } else {
                cr = false;
                push_char(&mut cur, c);
            }
            open = true;
            assert(s@.subrange(j, i + 1) =~= s@.subrange(j, i).push(c));
        }
    }
    if open {
        if cr {
            push_char(&mut cur, '\r');
        }
        proof {
            let t = s@.skip(j);
            lemma_line_len(t, t.len() as int);
            assert(t =~= cur@);
        }
        out.append("    ");
        out.append(cur.as_str());
        out.append("\n");
    } else {
        assert(s@.skip(j).len() == 0);
    }
    assert(out@ =~= indent_lines(s@));
    out
}

} // verus!
