//! The table of variables: where in memory each variable of each
//! function lives.

use vstd::prelude::*;
use vstd::string::StringExecFns;
use crate::ast::{BaseType, FunctionV, Program, ProgramV, Stmt, StmtV, Type, lemma_stmts_view_index};

verus! {

/// The address of the first variable: after the program, before the stack.
pub const FIRST_VAR_ADDR: u32 = 0xEFFC;

/// The most declarations whose addresses fit in a `u32` after the first.
pub const MAX_DECLS: usize = 1073726464;

/// A variable `var` of function `func`, stored at `addr`.
pub struct VarEntry {
    pub func: String,
    pub var: String,
    pub addr: u32,
}

/// The variables of a program, in the order they were declared.
pub struct VarTable {
    pub entries: Vec<VarEntry>,
}

/// A declaration: function name, variable name and type.
pub type DeclV = (Seq<char>, Seq<char>, Type);

/// An entry of the table: function name, variable name and address.
pub type EntryV = (Seq<char>, Seq<char>, u32);

/// The views of the entries of a table.
pub open spec fn entries_view(s: Seq<VarEntry>) -> Seq<EntryV> {
    Seq::new(s.len(), |i: int| (s[i].func@, s[i].var@, s[i].addr))
}

impl View for VarTable {
    type V = Seq<EntryV>;

    open spec fn view(&self) -> Seq<EntryV> {
        entries_view(self.entries@)
    }
}

/// The address of the first entry for variable `v` of function `f`.
pub open spec fn lookup(t: Seq<EntryV>, f: Seq<char>, v: Seq<char>) -> Option<u32>
    decreases t.len(),
{
    if t.len() == 0 {
        None
    } else {
        match lookup(t.drop_last(), f, v) {
            Some(a) => Some(a),
            None => if t.last().0 == f && t.last().1 == v {
                Some(t.last().2)
            } else {
                None
            },
        }
    }
}

/// A lookup that succeeds in a prefix of the table gives the same
/// answer in the whole table.
proof fn lemma_lookup_extend(t: Seq<EntryV>, k: int, f: Seq<char>, v: Seq<char>)
    requires
        0 <= k <= t.len(),
        lookup(t.take(k), f, v) is Some,
    ensures
        lookup(t, f, v) == lookup(t.take(k), f, v),
    decreases t.len(),
{
    if k == t.len() {
        assert(t.take(k) =~= t);
    } else {
        assert(t.drop_last().take(k) =~= t.take(k));
        lemma_lookup_extend(t.drop_last(), k, f, v);
    }
}

/// No two entries of `t` name the same variable of the same function.
pub open spec fn keys_distinct(t: Seq<EntryV>) -> bool {
    forall|i: int, j: int|
        0 <= i < j < t.len() ==> !((#[trigger] t[i]).0 == (#[trigger] t[j]).0 && t[i].1 == t[j].1)
}

impl VarTable {
    /// The table's invariant: each variable of each function has at most
    /// one entry, so the table is a map from (function, variable) to an
    /// address.
    pub open spec fn wf(&self) -> bool {
        keys_distinct(self@)
    }

    /// An empty table.
    pub fn new() -> (t: VarTable)
        ensures
            t@ == Seq::<EntryV>::empty(),
            t.wf(),
    {
        let t = VarTable { entries: Vec::new() };
        assert(t@ =~= Seq::<EntryV>::empty());
        t
    }

    /// The address of variable `v` of function `f`, if it is in the table.
    pub fn get(&self, f: &String, v: &String) -> (r: Option<u32>)
        ensures
            r == lookup(self@, f@, v@),
    {
        let n = self.entries.len();
        let mut i: usize = 0;
        while i < n
            invariant
                n == self.entries@.len(),
                0 <= i <= n,
                lookup(self@.take(i as int), f@, v@) is None,
            decreases n - i,
        {
            assert(self@.take(i + 1).drop_last() =~= self@.take(i as int));
            if self.entries[i].func == *f && self.entries[i].var == *v {
                proof {
                    lemma_lookup_extend(self@, i + 1, f@, v@);
                }
                return Some(self.entries[i].addr);
            }
            i = i + 1;
        }
        assert(self@.take(n as int) =~= self@);
        None
    }
}

/// The error for a variable declared with base type `void`.
pub open spec fn void_error(v: Seq<char>) -> Seq<char> {
    "Invalid declaration: variable `"@ + v + "` cannot have type `void`"@
}

/// The error for a variable declared twice in one function.
pub open spec fn exists_error(v: Seq<char>) -> Seq<char> {
    "Invalid declaration: variable `"@ + v + "` already exists"@
}

/// Declares one variable: it gets the next free address, four bytes after
/// the previous one.
pub open spec fn declare(t: Seq<EntryV>, d: DeclV) -> Result<Seq<EntryV>, Seq<char>> {
    if d.2.base == BaseType::Void {
        Err(void_error(d.1))
    } else if lookup(t, d.0, d.1) is Some {
        Err(exists_error(d.1))
    } else {
        Ok(t.push((d.0, d.1, (FIRST_VAR_ADDR + 4 * t.len()) as u32)))
    }
}

/// Declares the variables one after the other; the first error stops.
pub open spec fn declare_all(t: Seq<EntryV>, ds: Seq<DeclV>) -> Result<Seq<EntryV>, Seq<char>>
    decreases ds.len(),
{
    if ds.len() == 0 {
        Ok(t)
    } else {
        match declare(t, ds[0]) {
            Ok(t2) => declare_all(t2, ds.skip(1)),
            Err(e) => Err(e),
        }
    }
}

/// The parameters of a function, as declarations.
pub open spec fn param_decls(f: FunctionV) -> Seq<DeclV> {
    Seq::new(f.params.len(), |i: int| (f.name, f.params[i].1, f.params[i].0))
}

/// The declarations among the statements `ss` (not those nested in
/// `if` or `while`).
pub open spec fn body_decls(fname: Seq<char>, ss: Seq<StmtV>) -> Seq<DeclV>
    decreases ss.len(),
{
    if ss.len() == 0 {
        Seq::empty()
    } else {
        let rest = body_decls(fname, ss.skip(1));
        match ss[0] {
            StmtV::Decl { ty, name, .. } => seq![(fname, name, ty)] + rest,
            _ => rest,
        }
    }
}

/// All variables of a function: its parameters, then its declarations.
pub open spec fn function_decls(f: FunctionV) -> Seq<DeclV> {
    param_decls(f) + body_decls(f.name, f.body)
}

/// All variables of all functions, in order.
pub open spec fn program_decls(fs: Seq<FunctionV>) -> Seq<DeclV>
    decreases fs.len(),
{
    if fs.len() == 0 {
        Seq::empty()
    } else {
        function_decls(fs[0]) + program_decls(fs.skip(1))
    }
}

/// The table of a program, or the error of its first bad declaration.
pub open spec fn layout(p: ProgramV) -> Result<Seq<EntryV>, Seq<char>> {
    declare_all(Seq::empty(), program_decls(p.funcs))
}

/// Declaring a concatenation declares the first part, then the second.
pub proof fn lemma_declare_all_concat(t: Seq<EntryV>, a: Seq<DeclV>, b: Seq<DeclV>)
    ensures
        declare_all(t, a + b) == match declare_all(t, a) {
            Ok(t2) => declare_all(t2, b),
            Err(e) => Err(e),
        },
    decreases a.len(),
{
    if a.len() == 0 {
        assert(a + b =~= b);
    } else {
        assert((a + b)[0] == a[0]);
        assert((a + b).skip(1) =~= a.skip(1) + b);
        match declare(t, a[0]) {
            Ok(t2) => {
                lemma_declare_all_concat(t2, a.skip(1), b);
            },
            Err(e) => {},
        }
    }
}

/// The message of [`void_error`].
fn void_message(v: &String) -> (m: String)
    ensures
        m@ == void_error(v@),
{
    let mut m = String::new();
    m.append("Invalid declaration: variable `");
    m.append(v.as_str());
    m.append("` cannot have type `void`");
    assert(m@ =~= void_error(v@));
    m
}

/// The message of [`exists_error`].
fn exists_message(v: &String) -> (m: String)
    ensures
        m@ == exists_error(v@),
{
    let mut m = String::new();
    m.append("Invalid declaration: variable `");
    m.append(v.as_str());
    m.append("` already exists");
    assert(m@ =~= exists_error(v@));
    m
}

impl VarTable {
    /// Declares variable `v` of function `f` with type `ty`.
    fn declare(&mut self, f: &String, v: &String, ty: &Type) -> (r: Result<(), String>)
        requires
            old(self)@.len() < MAX_DECLS,
        ensures
            match declare(old(self)@, (f@, v@, *ty)) {
                Ok(t2) => r is Ok && final(self)@ == t2,
                Err(e) => r matches Err(m) && m@ == e,
            },
    {
        match ty.base {
            BaseType::Void => {
                return Err(void_message(v));
            },
            BaseType::U32 => {},
        }
        if self.get(f, v).is_some() {
            return Err(exists_message(v));
        }
        let n = self.entries.len();
        let addr: u32 = FIRST_VAR_ADDR + 4 * (n as u32);
        self.entries.push(VarEntry { func: f.clone(), var: v.clone(), addr });
        assert(self@ =~= old(self)@.push((f@, v@, addr)));
        Ok(())
    }
}

/// Declaring `x` one by one after `t` is declaring its first element,
/// then the rest.
proof fn lemma_declare_all_step(t: Seq<EntryV>, x: Seq<DeclV>)
    requires
        x.len() > 0,
    ensures
        declare_all(t, x) == match declare(t, x[0]) {
            Ok(t2) => declare_all(t2, x.skip(1)),
            Err(e) => Err(e),
        },
{
}

/// Builds the table of all variables of a program: for each function in
/// order, its parameters and then the declarations at the top level of
/// its body, each at the next free address. The first variable whose
/// base type is `void`, or that its function already declared, stops it
/// with an error.
pub fn declare_variables(p: &Program) -> (r: Result<VarTable, String>)
    requires
        program_decls(p@.funcs).len() <= MAX_DECLS,
    ensures
        match layout(p@) {
            Ok(t) => r matches Ok(tab) && tab@ == t,
            Err(e) => r matches Err(m) && m@ == e,
        },
        r matches Ok(tab) ==> tab.wf(),
{
    let mut table = VarTable::new();
    let nf = p.funcs.len();
    let mut i: usize = 0;
    assert(p@.funcs.skip(0) =~= p@.funcs);
    while i < nf
        invariant
            nf == p.funcs@.len(),
            nf == p@.funcs.len(),
            0 <= i <= nf,
            declare_all(table@, program_decls(p@.funcs.skip(i as int))) == layout(p@),
            table@.len() + program_decls(p@.funcs.skip(i as int)).len() <= MAX_DECLS,
        decreases nf - i,
    {
        let f = &p.funcs[i];
        let ghost fv = p@.funcs[i as int];
        let ghost rest = program_decls(p@.funcs.skip(i + 1));
        let ghost body = body_decls(fv.name, fv.body);
        proof {
            assert(fv == crate::ast::function_view(*f));
            assert(p@.funcs.skip(i as int)[0] == fv);
            assert(p@.funcs.skip(i as int).skip(1) =~= p@.funcs.skip(i + 1));
            assert(param_decls(fv) + body + rest =~= param_decls(fv) + (body + rest));
            assert(param_decls(fv).skip(0) =~= param_decls(fv));
        }
        let np = f.params.len();
        let mut j: usize = 0;
        while j < np
            invariant
                np == f.params@.len(),
                np == fv.params.len(),
                fv == crate::ast::function_view(*f),
                0 <= j <= np,
                declare_all(table@, param_decls(fv).skip(j as int) + (body + rest)) == layout(p@),
                table@.len() + (param_decls(fv).skip(j as int) + (body + rest)).len() <= MAX_DECLS,
            decreases np - j,
        {
            let ghost x = param_decls(fv).skip(j as int) + (body + rest);
            proof {
                lemma_declare_all_step(table@, x);
                assert(x[0] == (f.name@, f.params@[j as int].1@, f.params@[j as int].0));
                assert(x.skip(1) =~= param_decls(fv).skip(j + 1) + (body + rest));
            }
            let r = table.declare(&f.name, &f.params[j].1, &f.params[j].0);
            if let Err(m) = r {
                return Err(m);
            }
            j = j + 1;
        }
        assert(param_decls(fv).skip(np as int) + (body + rest) =~= body + rest);
        let nb = f.body.len();
        let mut k: usize = 0;
        proof {
            lemma_stmts_view_index(f.body@);
            assert(fv.body.skip(0) =~= fv.body);
        }
        while k < nb
            invariant
                nb == f.body@.len(),
                nb == fv.body.len(),
                fv == crate::ast::function_view(*f),
                forall|q: int| 0 <= q < nb ==> #[trigger] fv.body[q] == crate::ast::stmt_view(f.body@[q]),
                0 <= k <= nb,
                declare_all(table@, body_decls(fv.name, fv.body.skip(k as int)) + rest) == layout(p@),
                table@.len() + (body_decls(fv.name, fv.body.skip(k as int)) + rest).len() <= MAX_DECLS,
            decreases nb - k,
        {
            let ghost bs = fv.body.skip(k as int);
            proof {
                assert(bs[0] == fv.body[k as int]);
                assert(bs.skip(1) =~= fv.body.skip(k + 1));
            }
            match &f.body[k] {
                Stmt::Decl { ty, name, .. } => {
                    let ghost x = body_decls(fv.name, bs) + rest;
                    proof {
                        lemma_declare_all_step(table@, x);
                        assert(x[0] == (f.name@, name@, *ty));
                        assert(x.skip(1) =~= body_decls(fv.name, fv.body.skip(k + 1)) + rest);
                    }
                    let r = table.declare(&f.name, name, ty);
                    if let Err(m) = r {
                        return Err(m);
                    }
                },
                _ => {},
            }
            k = k + 1;
        }
        assert(fv.body.skip(nb as int).len() == 0);
        assert(body_decls(fv.name, fv.body.skip(nb as int)) + rest =~= rest);
        i = i + 1;
    }
    assert(p@.funcs.skip(nf as int).len() == 0);
    proof {
        lemma_layout_addresses(p@, table@);
    }
    Ok(table)
}

/// A lookup after one more entry: the old answer, or the new entry.
proof fn lemma_lookup_push(t: Seq<EntryV>, e: EntryV, f: Seq<char>, v: Seq<char>)
    ensures
        lookup(t.push(e), f, v) == match lookup(t, f, v) {
            Some(a) => Some(a),
            None => if e.0 == f && e.1 == v {
                Some(e.2)
            } else {
                None
            },
        },
{
    assert(t.push(e).drop_last() =~= t);
}

/// What a successful `declare_all` gives: every variable declared before
/// stays declared, and every declaration is in the table and not `void`.
pub proof fn lemma_declare_all_ok(t: Seq<EntryV>, ds: Seq<DeclV>, t2: Seq<EntryV>)
    requires
        declare_all(t, ds) == Ok::<Seq<EntryV>, Seq<char>>(t2),
    ensures
        forall|f: Seq<char>, v: Seq<char>| #[trigger] lookup(t, f, v) is Some ==> lookup(t2, f, v) is Some,
        forall|k: int|
            0 <= k < ds.len() ==> lookup(t2, #[trigger] ds[k].0, ds[k].1) is Some && ds[k].2.base
                != BaseType::Void,
    decreases ds.len(),
{
    if ds.len() > 0 {
        let d = ds[0];
        let e = (d.0, d.1, (FIRST_VAR_ADDR + 4 * t.len()) as u32);
        let t1 = t.push(e);
        assert(declare(t, d) == Ok::<Seq<EntryV>, Seq<char>>(t1));
        lemma_declare_all_ok(t1, ds.skip(1), t2);
        assert forall|f: Seq<char>, v: Seq<char>| #[trigger] lookup(t, f, v) is Some implies lookup(
            t2,
            f,
            v,
        ) is Some by {
            lemma_lookup_push(t, e, f, v);
        }
        assert forall|k: int| 0 <= k < ds.len() implies lookup(t2, #[trigger] ds[k].0, ds[k].1) is Some
            && ds[k].2.base != BaseType::Void by {
            if k == 0 {
                lemma_lookup_push(t, e, d.0, d.1);
            } else {
                assert(ds.skip(1)[k - 1] == ds[k]);
            }
        }
    }
}

/// The parameters of every function are among the declarations of the
/// program.
pub proof fn lemma_param_decl_in_program(fs: Seq<FunctionV>, i: int, j: int)
    requires
        0 <= i < fs.len(),
        0 <= j < fs[i].params.len(),
    ensures
        program_decls(fs).contains(param_decls(fs[i])[j]),
    decreases i,
{
    if i == 0 {
        let fd = function_decls(fs[0]);
        assert(fd[j] == param_decls(fs[i])[j]);
        assert(program_decls(fs)[j] == fd[j]);
    } else {
        let rest = fs.skip(1);
        assert(rest[i - 1] == fs[i]);
        lemma_param_decl_in_program(rest, i - 1, j);
        let k = choose|k: int| 0 <= k < program_decls(rest).len() && program_decls(rest)[k]
            == param_decls(fs[i])[j];
        let off = function_decls(fs[0]).len() as int;
        assert(program_decls(fs)[off + k] == program_decls(rest)[k]);
    }
}

/// The declarations `ds` can all be added to table `t`: none is `void`,
/// none is in `t` already, and no two of them name the same variable of
/// the same function.
pub open spec fn decls_fit(t: Seq<EntryV>, ds: Seq<DeclV>) -> bool {
    &&& forall|k: int| 0 <= k < ds.len() ==> (#[trigger] ds[k]).2.base != BaseType::Void
    &&& forall|k: int| 0 <= k < ds.len() ==> lookup(t, (#[trigger] ds[k]).0, ds[k].1) is None
    &&& forall|j: int, k: int|
        0 <= j < k < ds.len() ==> !((#[trigger] ds[j]).0 == (#[trigger] ds[k]).0 && ds[j].1 == ds[k].1)
}

/// Declaring `ds` after `t` succeeds exactly when [`decls_fit`] holds.
proof fn lemma_declare_all_fits(t: Seq<EntryV>, ds: Seq<DeclV>)
    ensures
        declare_all(t, ds) is Ok <==> decls_fit(t, ds),
    decreases ds.len(),
{
    if ds.len() > 0 {
        let d = ds[0];
        let rest = ds.skip(1);
        let e = (d.0, d.1, (FIRST_VAR_ADDR + 4 * t.len()) as u32);
        let t1 = t.push(e);
        lemma_declare_all_fits(t1, rest);
        assert forall|k: int| 0 <= k < rest.len() implies #[trigger] rest[k] == ds[k + 1] by {}
        assert forall|f: Seq<char>, v: Seq<char>| #[trigger] lookup(t1, f, v) is None <==> (lookup(
            t,
            f,
            v,
        ) is None && !(d.0 == f && d.1 == v)) by {
            lemma_lookup_push(t, e, f, v);
        }
        if decls_fit(t, ds) {
            assert(declare(t, d) == Ok::<Seq<EntryV>, Seq<char>>(t1));
            assert forall|k: int| 0 <= k < rest.len() implies lookup(t1, (#[trigger] rest[k]).0, rest[k].1)
                is None by {
                assert(rest[k] == ds[k + 1]);
                assert(!(ds[0].0 == ds[k + 1].0 && ds[0].1 == ds[k + 1].1));
            }
            assert forall|j: int, k: int| 0 <= j < k < rest.len() implies !((#[trigger] rest[j]).0
                == (#[trigger] rest[k]).0 && rest[j].1 == rest[k].1) by {
                assert(rest[j] == ds[j + 1] && rest[k] == ds[k + 1]);
            }
        } else if declare_all(t, ds) is Ok {
            assert(declare(t, d) == Ok::<Seq<EntryV>, Seq<char>>(t1));
            assert(decls_fit(t1, rest));
            assert forall|k: int| 0 <= k < ds.len() implies (#[trigger] ds[k]).2.base != BaseType::Void
                && lookup(t, ds[k].0, ds[k].1) is None by {
                if k > 0 {
                    assert(rest[k - 1] == ds[k]);
                }
            }
            assert forall|j: int, k: int| 0 <= j < k < ds.len() implies !((#[trigger] ds[j]).0
                == (#[trigger] ds[k]).0 && ds[j].1 == ds[k].1) by {
                assert(rest[k - 1] == ds[k]);
                if j > 0 {
                    assert(rest[j - 1] == ds[j]);
                } else {
                    assert(lookup(t1, rest[k - 1].0, rest[k - 1].1) is None);
                }
            }
        }
    }
}

/// Law: laying out the variables of a program fails exactly when a
/// variable has base type `void`, or when one function declares the same
/// variable twice (as a parameter or at the top level of its body).
pub proof fn lemma_layout_fails_iff(p: ProgramV)
    ensures
        layout(p) is Ok <==> {
            let ds = program_decls(p.funcs);
            &&& forall|k: int| 0 <= k < ds.len() ==> (#[trigger] ds[k]).2.base != BaseType::Void
            &&& forall|j: int, k: int|
                0 <= j < k < ds.len() ==> !((#[trigger] ds[j]).0 == (#[trigger] ds[k]).0 && ds[j].1
                    == ds[k].1)
        },
{
    lemma_declare_all_fits(Seq::empty(), program_decls(p.funcs));
}

/// A successful declaration run appends one entry per declaration, at
/// consecutive addresses.
proof fn lemma_declare_all_shape(t: Seq<EntryV>, ds: Seq<DeclV>, t2: Seq<EntryV>)
    requires
        declare_all(t, ds) == Ok::<Seq<EntryV>, Seq<char>>(t2),
    ensures
        t2.len() == t.len() + ds.len(),
        forall|i: int| 0 <= i < t.len() ==> #[trigger] t2[i] == t[i],
        forall|i: int|
            0 <= i < ds.len() ==> #[trigger] t2[t.len() + i] == (ds[i].0, ds[i].1, (FIRST_VAR_ADDR + 4
                * (t.len() + i)) as u32),
    decreases ds.len(),
{
    if ds.len() > 0 {
        let d = ds[0];
        let e = (d.0, d.1, (FIRST_VAR_ADDR + 4 * t.len()) as u32);
        let t1 = t.push(e);
        assert(declare(t, d) == Ok::<Seq<EntryV>, Seq<char>>(t1));
        lemma_declare_all_shape(t1, ds.skip(1), t2);
        assert forall|i: int| 0 <= i < ds.len() implies #[trigger] t2[t.len() + i] == (
            ds[i].0,
            ds[i].1,
            (FIRST_VAR_ADDR + 4 * (t.len() + i)) as u32,
        ) by {
            if i == 0 {
                assert(t2[t.len() as int] == t1[t.len() as int]);
            } else {
                assert(ds.skip(1)[i - 1] == ds[i]);
                assert(t2[t1.len() + (i - 1)] == t2[t.len() + i]);
            }
        }
    }
}

/// Law: the table of a program holds its declarations in order, the
/// `i`-th at address `0xEFFC + 4 * i`; no two entries name the same
/// variable of the same function, and no two share an address.
pub proof fn lemma_layout_addresses(p: ProgramV, t: Seq<EntryV>)
    requires
        layout(p) == Ok::<Seq<EntryV>, Seq<char>>(t),
        program_decls(p.funcs).len() <= MAX_DECLS,
    ensures
        t.len() == program_decls(p.funcs).len(),
        forall|i: int|
            0 <= i < t.len() ==> (#[trigger] t[i]).0 == program_decls(p.funcs)[i].0 && t[i].1
                == program_decls(p.funcs)[i].1 && t[i].2 == FIRST_VAR_ADDR + 4 * i,
        forall|i: int, j: int|
            0 <= i < j < t.len() ==> !((#[trigger] t[i]).0 == (#[trigger] t[j]).0 && t[i].1
                == t[j].1),
        forall|i: int, j: int| 0 <= i < j < t.len() ==> (#[trigger] t[i]).2 != (#[trigger] t[j]).2,
{
    let ds = program_decls(p.funcs);
    lemma_declare_all_shape(Seq::empty(), ds, t);
    lemma_layout_fails_iff(p);
    assert forall|i: int| 0 <= i < t.len() implies (#[trigger] t[i]).0 == ds[i].0 && t[i].1
        == ds[i].1 && t[i].2 == FIRST_VAR_ADDR + 4 * i by {
        assert(t[0 + i] == t[i]);
    }
    assert forall|i: int, j: int| 0 <= i < j < t.len() implies !((#[trigger] t[i]).0
        == (#[trigger] t[j]).0 && t[i].1 == t[j].1) by {
        assert(ds[i] == ds[i] && ds[j] == ds[j]);
    }
}

} // verus!
