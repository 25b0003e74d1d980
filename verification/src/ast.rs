//! The abstract syntax of the source language, and its mathematical
//! view (the same trees with every `String` replaced by its characters).

use vstd::prelude::*;

verus! {

/// A whole program: a list of functions.
#[derive(Debug, PartialEq, Eq)]
pub struct Program {
    pub funcs: Vec<Function>,
}

/// A function definition.
#[derive(Debug, PartialEq, Eq)]
pub struct Function {
    pub return_ty: Type,
    pub name: String,
    pub params: Vec<(Type, String)>,
    pub body: Vec<Stmt>,
}

/// The base of a type, before its pointer stars.
#[derive(Debug, Clone, PartialEq, Eq, Structural)]
pub enum BaseType {
    Void,
    U32,
}

/// A type: a base type and the number of `*` that follow it.
#[derive(Debug, Clone, PartialEq, Eq, Structural)]
pub struct Type {
    pub base: BaseType,
    pub ptr: u32,
}

/// An expression.
#[derive(Debug, PartialEq, Eq)]
pub enum Expr {
    Int(i64),
    Var(String),
    Call { name: String, args: Vec<Expr> },
    AddrOf(Box<Expr>),
    Deref(Box<Expr>),
    Add(Box<Expr>, Box<Expr>),
    Sub(Box<Expr>, Box<Expr>),
    And(Box<Expr>, Box<Expr>),
    Or(Box<Expr>, Box<Expr>),
    LShift(Box<Expr>, Box<Expr>),
    RShift(Box<Expr>, Box<Expr>),
    BinEq(Box<Expr>, Box<Expr>),
    BinNEq(Box<Expr>, Box<Expr>),
    LE(Box<Expr>, Box<Expr>),
    GE(Box<Expr>, Box<Expr>),
    GT(Box<Expr>, Box<Expr>),
    LT(Box<Expr>, Box<Expr>),
    Str(String),
    ArrayLit(Vec<Expr>),
}

/// A statement.
#[derive(Debug, PartialEq, Eq)]
pub enum Stmt {
    Return(Expr),
    Decl { ty: Type, name: String, init: Expr },
    Assign { target: Expr, value: Expr },
    If { cond: Expr, body: Vec<Stmt> },
    While { cond: Expr, body: Vec<Stmt> },
    For {
        init: Option<Box<Stmt>>,
        cond: Option<Expr>,
        step: Option<Box<Stmt>>,
        body: Vec<Stmt>,
    },
    Expr(Expr),
}

/// The view of an [`Expr`].
pub enum ExprV {
    Int(i64),
    Var(Seq<char>),
    Call { name: Seq<char>, args: Seq<ExprV> },
    AddrOf(Box<ExprV>),
    Deref(Box<ExprV>),
    Add(Box<ExprV>, Box<ExprV>),
    Sub(Box<ExprV>, Box<ExprV>),
    And(Box<ExprV>, Box<ExprV>),
    Or(Box<ExprV>, Box<ExprV>),
    LShift(Box<ExprV>, Box<ExprV>),
    RShift(Box<ExprV>, Box<ExprV>),
    BinEq(Box<ExprV>, Box<ExprV>),
    BinNEq(Box<ExprV>, Box<ExprV>),
    LE(Box<ExprV>, Box<ExprV>),
    GE(Box<ExprV>, Box<ExprV>),
    GT(Box<ExprV>, Box<ExprV>),
    LT(Box<ExprV>, Box<ExprV>),
    Str(Seq<char>),
    ArrayLit(Seq<ExprV>),
}

/// The view of a [`Stmt`].
pub enum StmtV {
    Return(ExprV),
    Decl { ty: Type, name: Seq<char>, init: ExprV },
    Assign { target: ExprV, value: ExprV },
    If { cond: ExprV, body: Seq<StmtV> },
    While { cond: ExprV, body: Seq<StmtV> },
    For {
        init: Option<Box<StmtV>>,
        cond: Option<ExprV>,
        step: Option<Box<StmtV>>,
        body: Seq<StmtV>,
    },
    Expr(ExprV),
}

/// The view of a [`Function`].
pub struct FunctionV {
    pub return_ty: Type,
    pub name: Seq<char>,
    pub params: Seq<(Type, Seq<char>)>,
    pub body: Seq<StmtV>,
}

/// The view of a [`Program`].
pub struct ProgramV {
    pub funcs: Seq<FunctionV>,
}

/// The view of an expression.
pub open spec fn expr_view(e: Expr) -> ExprV
    decreases e,
{
    match e {
        Expr::Int(i) => ExprV::Int(i),
        Expr::Var(s) => ExprV::Var(s@),
        Expr::Call { name, args } => ExprV::Call { name: name@, args: exprs_view(args@) },
        Expr::AddrOf(a) => ExprV::AddrOf(Box::new(expr_view(*a))),
        Expr::Deref(a) => ExprV::Deref(Box::new(expr_view(*a))),
        Expr::Add(a, b) => ExprV::Add(Box::new(expr_view(*a)), Box::new(expr_view(*b))),
        Expr::Sub(a, b) => ExprV::Sub(Box::new(expr_view(*a)), Box::new(expr_view(*b))),
        Expr::And(a, b) => ExprV::And(Box::new(expr_view(*a)), Box::new(expr_view(*b))),
        Expr::Or(a, b) => ExprV::Or(Box::new(expr_view(*a)), Box::new(expr_view(*b))),
        Expr::LShift(a, b) => ExprV::LShift(Box::new(expr_view(*a)), Box::new(expr_view(*b))),
        Expr::RShift(a, b) => ExprV::RShift(Box::new(expr_view(*a)), Box::new(expr_view(*b))),
        Expr::BinEq(a, b) => ExprV::BinEq(Box::new(expr_view(*a)), Box::new(expr_view(*b))),
        Expr::BinNEq(a, b) => ExprV::BinNEq(Box::new(expr_view(*a)), Box::new(expr_view(*b))),
        Expr::LE(a, b) => ExprV::LE(Box::new(expr_view(*a)), Box::new(expr_view(*b))),
        Expr::GE(a, b) => ExprV::GE(Box::new(expr_view(*a)), Box::new(expr_view(*b))),
        Expr::GT(a, b) => ExprV::GT(Box::new(expr_view(*a)), Box::new(expr_view(*b))),
        Expr::LT(a, b) => ExprV::LT(Box::new(expr_view(*a)), Box::new(expr_view(*b))),
        Expr::Str(s) => ExprV::Str(s@),
        Expr::ArrayLit(items) => ExprV::ArrayLit(exprs_view(items@)),
    }
}

/// The views of a sequence of expressions.
pub open spec fn exprs_view(s: Seq<Expr>) -> Seq<ExprV>
    decreases s,
{
    if s.len() == 0 {
        Seq::empty()
    } else {
        seq![expr_view(s[0])] + exprs_view(s.subrange(1, s.len() as int))
    }
}

/// The view of a statement.
pub open spec fn stmt_view(s: Stmt) -> StmtV
    decreases s,
{
    match s {
        Stmt::Return(e) => StmtV::Return(expr_view(e)),
        Stmt::Decl { ty, name, init } => StmtV::Decl { ty, name: name@, init: expr_view(init) },
        Stmt::Assign { target, value } => StmtV::Assign {
            target: expr_view(target),
            value: expr_view(value),
        },
        Stmt::If { cond, body } => StmtV::If { cond: expr_view(cond), body: stmts_view(body@) },
        Stmt::While { cond, body } => StmtV::While {
            cond: expr_view(cond),
            body: stmts_view(body@),
        },
        Stmt::For { init, cond, step, body } => StmtV::For {
            init: match init {
                Some(b) => Some(Box::new(stmt_view(*b))),
                None => None,
            },
            cond: match cond {
                Some(c) => Some(expr_view(c)),
                None => None,
            },
            step: match step {
                Some(b) => Some(Box::new(stmt_view(*b))),
                None => None,
            },
            body: stmts_view(body@),
        },
        Stmt::Expr(e) => StmtV::Expr(expr_view(e)),
    }
}

/// The views of a sequence of statements.
pub open spec fn stmts_view(s: Seq<Stmt>) -> Seq<StmtV>
    decreases s,
{
    if s.len() == 0 {
        Seq::empty()
    } else {
        seq![stmt_view(s[0])] + stmts_view(s.subrange(1, s.len() as int))
    }
}

/// The views of a function's parameters.
pub open spec fn params_view(s: Seq<(Type, String)>) -> Seq<(Type, Seq<char>)> {
    Seq::new(s.len(), |i: int| (s[i].0, s[i].1@))
}

/// The view of a function.
pub open spec fn function_view(f: Function) -> FunctionV {
    FunctionV {
        return_ty: f.return_ty,
        name: f.name@,
        params: params_view(f.params@),
        body: stmts_view(f.body@),
    }
}

/// The view of a program.
pub open spec fn program_view(p: Program) -> ProgramV {
    ProgramV { funcs: Seq::new(p.funcs@.len(), |i: int| function_view(p.funcs@[i])) }
}

/// The view of a sequence of expressions is taken element by element.
pub proof fn lemma_exprs_view_index(s: Seq<Expr>)
    ensures
        exprs_view(s).len() == s.len(),
        forall|k: int| 0 <= k < s.len() ==> #[trigger] exprs_view(s)[k] == expr_view(s[k]),
    decreases s.len(),
{
    if s.len() > 0 {
        let rest = s.subrange(1, s.len() as int);
        lemma_exprs_view_index(rest);
        assert forall|k: int| 0 <= k < s.len() implies #[trigger] exprs_view(s)[k] == expr_view(
            s[k],
        ) by {
            if k > 0 {
                assert(rest[k - 1] == s[k]);
            }
        }
    }
}

/// The view of a prefix grows by the view of the next element.
pub proof fn lemma_exprs_view_take_push(s: Seq<Expr>, i: int)
    requires
        0 <= i < s.len(),
    ensures
        exprs_view(s.take(i + 1)) == exprs_view(s.take(i)).push(expr_view(s[i])),
        exprs_view(s.take(i)).len() == i,
{
    lemma_exprs_view_index(s.take(i + 1));
    lemma_exprs_view_index(s.take(i));
    assert(exprs_view(s.take(i + 1)) =~= exprs_view(s.take(i)).push(expr_view(s[i])));
}

/// The view of a sequence of expressions grows with the sequence.
pub proof fn lemma_exprs_view_push(s: Seq<Expr>, e: Expr)
    ensures
        exprs_view(s.push(e)) == exprs_view(s).push(expr_view(e)),
{
    lemma_exprs_view_index(s.push(e));
    lemma_exprs_view_index(s);
    assert(exprs_view(s.push(e)) =~= exprs_view(s).push(expr_view(e)));
}

/// The view of a sequence of statements grows with the sequence.
pub proof fn lemma_stmts_view_push(s: Seq<Stmt>, st: Stmt)
    ensures
        stmts_view(s.push(st)) == stmts_view(s).push(stmt_view(st)),
{
    lemma_stmts_view_index(s.push(st));
    lemma_stmts_view_index(s);
    assert(stmts_view(s.push(st)) =~= stmts_view(s).push(stmt_view(st)));
}

/// The view of a sequence of statements is taken element by element.
pub proof fn lemma_stmts_view_index(s: Seq<Stmt>)
    ensures
        stmts_view(s).len() == s.len(),
        forall|k: int| 0 <= k < s.len() ==> #[trigger] stmts_view(s)[k] == stmt_view(s[k]),
    decreases s.len(),
{
    if s.len() > 0 {
        let rest = s.subrange(1, s.len() as int);
        lemma_stmts_view_index(rest);
        assert forall|k: int| 0 <= k < s.len() implies #[trigger] stmts_view(s)[k] == stmt_view(
            s[k],
        ) by {
            if k > 0 {
                assert(rest[k - 1] == s[k]);
            }
        }
    }
}

impl View for Expr {
    type V = ExprV;

    open spec fn view(&self) -> ExprV {
        expr_view(*self)
    }
}

impl View for Stmt {
    type V = StmtV;

    open spec fn view(&self) -> StmtV {
        stmt_view(*self)
    }
}

impl View for Function {
    type V = FunctionV;

    open spec fn view(&self) -> FunctionV {
        function_view(*self)
    }
}

impl View for Program {
    type V = ProgramV;

    open spec fn view(&self) -> ProgramV {
        program_view(*self)
    }
}

/// A copy of an expression.
fn clone_expr(e: &Expr) -> (r: Expr)
    ensures
        r@ == e@,
    decreases e, 1nat,
{
    match e {
        Expr::Int(i) => Expr::Int(*i),
        Expr::Var(s) => Expr::Var(s.clone()),
        Expr::Call { name, args } => Expr::Call { name: name.clone(), args: clone_exprs(args) },
        Expr::AddrOf(a) => Expr::AddrOf(Box::new(clone_expr(a))),
        Expr::Deref(a) => Expr::Deref(Box::new(clone_expr(a))),
        Expr::Add(a, b) => Expr::Add(Box::new(clone_expr(a)), Box::new(clone_expr(b))),
        Expr::Sub(a, b) => Expr::Sub(Box::new(clone_expr(a)), Box::new(clone_expr(b))),
        Expr::And(a, b) => Expr::And(Box::new(clone_expr(a)), Box::new(clone_expr(b))),
        Expr::Or(a, b) => Expr::Or(Box::new(clone_expr(a)), Box::new(clone_expr(b))),
        Expr::LShift(a, b) => Expr::LShift(Box::new(clone_expr(a)), Box::new(clone_expr(b))),
        Expr::RShift(a, b) => Expr::RShift(Box::new(clone_expr(a)), Box::new(clone_expr(b))),
        Expr::BinEq(a, b) => Expr::BinEq(Box::new(clone_expr(a)), Box::new(clone_expr(b))),
        Expr::BinNEq(a, b) => Expr::BinNEq(Box::new(clone_expr(a)), Box::new(clone_expr(b))),
        Expr::LE(a, b) => Expr::LE(Box::new(clone_expr(a)), Box::new(clone_expr(b))),
        Expr::GE(a, b) => Expr::GE(Box::new(clone_expr(a)), Box::new(clone_expr(b))),
        Expr::GT(a, b) => Expr::GT(Box::new(clone_expr(a)), Box::new(clone_expr(b))),
        Expr::LT(a, b) => Expr::LT(Box::new(clone_expr(a)), Box::new(clone_expr(b))),
        Expr::Str(s) => Expr::Str(s.clone()),
        Expr::ArrayLit(items) => Expr::ArrayLit(clone_exprs(items)),
    }
}

/// A copy of a sequence of expressions.
fn clone_exprs(v: &Vec<Expr>) -> (r: Vec<Expr>)
    ensures
        exprs_view(r@) == exprs_view(v@),
    decreases v@, 0nat,
{
    let mut r: Vec<Expr> = Vec::new();
    let n = v.len();
    let mut i: usize = 0;
    proof {
        lemma_exprs_view_index(v@);
        lemma_exprs_view_index(r@);
    }
    while i < n
        invariant
            n == v@.len(),
            0 <= i <= n,
            r@.len() == i,
            forall|k: int| 0 <= k < i ==> (#[trigger] r@[k])@ == v@[k]@,
        decreases n - i,
    {
        let c = clone_expr(&v[i]);
        r.push(c);
        i = i + 1;
    }
    proof {
        lemma_exprs_view_index(v@);
        lemma_exprs_view_index(r@);
        assert(exprs_view(r@) =~= exprs_view(v@));
    }
    r
}

/// A copy of a type.
fn clone_type(t: &Type) -> (r: Type)
    ensures
        r == *t,
{
    let base = match t.base {
        BaseType::Void => BaseType::Void,
        BaseType::U32 => BaseType::U32,
    };
    Type { base, ptr: t.ptr }
}

/// A copy of a statement.
fn clone_stmt(s: &Stmt) -> (r: Stmt)
    ensures
        r@ == s@,
    decreases s, 1nat,
{
    match s {
        Stmt::Return(e) => Stmt::Return(clone_expr(e)),
        Stmt::Decl { ty, name, init } => Stmt::Decl {
            ty: clone_type(ty),
            name: name.clone(),
            init: clone_expr(init),
        },
        Stmt::Assign { target, value } => Stmt::Assign {
            target: clone_expr(target),
            value: clone_expr(value),
        },
        Stmt::If { cond, body } => Stmt::If { cond: clone_expr(cond), body: clone_stmts(body) },
        Stmt::While { cond, body } => Stmt::While { cond: clone_expr(cond), body: clone_stmts(body) },
        Stmt::For { init, cond, step, body } => Stmt::For {
            init: match init {
                Some(b) => Some(Box::new(clone_stmt(b))),
                None => None,
            },
            cond: match cond {
                Some(c) => Some(clone_expr(c)),
                None => None,
            },
            step: match step {
                Some(b) => Some(Box::new(clone_stmt(b))),
                None => None,
            },
            body: clone_stmts(body),
        },
        Stmt::Expr(e) => Stmt::Expr(clone_expr(e)),
    }
}

/// A copy of a sequence of statements.
fn clone_stmts(v: &Vec<Stmt>) -> (r: Vec<Stmt>)
    ensures
        stmts_view(r@) == stmts_view(v@),
    decreases v@, 0nat,
{
    let mut r: Vec<Stmt> = Vec::new();
    let n = v.len();
    let mut i: usize = 0;
    while i < n
        invariant
            n == v@.len(),
            0 <= i <= n,
            r@.len() == i,
            forall|k: int| 0 <= k < i ==> (#[trigger] r@[k])@ == v@[k]@,
        decreases n - i,
    {
        let c = clone_stmt(&v[i]);
        r.push(c);
        i = i + 1;
    }
    proof {
        lemma_stmts_view_index(v@);
        lemma_stmts_view_index(r@);
        assert(stmts_view(r@) =~= stmts_view(v@));
    }
    r
}

/// A copy of a function.
fn clone_function(f: &Function) -> (r: Function)
    ensures
        r@ == f@,
{
    let mut params: Vec<(Type, String)> = Vec::new();
    let n = f.params.len();
    let mut i: usize = 0;
    while i < n
        invariant
            n == f.params@.len(),
            0 <= i <= n,
            params@.len() == i,
            forall|k: int| 0 <= k < i ==> (#[trigger] params@[k]).0 == f.params@[k].0 && params@[k].1@ == f.params@[k].1@,
        decreases n - i,
    {
        let p = &f.params[i];
        params.push((clone_type(&p.0), p.1.clone()));
        i = i + 1;
    }
    let r = Function {
        return_ty: clone_type(&f.return_ty),
        name: f.name.clone(),
        params,
        body: clone_stmts(&f.body),
    };
    assert(params_view(r.params@) =~= params_view(f.params@));
    r
}

impl Clone for Expr {
    /// A copy of the expression.
    fn clone(&self) -> (r: Self)
        ensures
            r@ == self@,
    {
        clone_expr(self)
    }
}

impl Clone for Stmt {
    /// A copy of the statement.
    fn clone(&self) -> (r: Self)
        ensures
            r@ == self@,
    {
        clone_stmt(self)
    }
}

impl Clone for Function {
    /// A copy of the function.
    fn clone(&self) -> (r: Self)
        ensures
            r@ == self@,
    {
        clone_function(self)
    }
}

impl Clone for Program {
    /// A copy of the program.
    fn clone(&self) -> (r: Self)
        ensures
            r@ == self@,
    {
        let mut funcs: Vec<Function> = Vec::new();
        let n = self.funcs.len();
        let mut i: usize = 0;
        while i < n
            invariant
                n == self.funcs@.len(),
                0 <= i <= n,
                funcs@.len() == i,
                forall|k: int| 0 <= k < i ==> (#[trigger] funcs@[k])@ == self.funcs@[k]@,
            decreases n - i,
        {
            funcs.push(clone_function(&self.funcs[i]));
            i = i + 1;
        }
        let r = Program { funcs };
        assert(r@.funcs =~= self@.funcs);
        r
    }
}

} // verus!
