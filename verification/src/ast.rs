//! The syntax-tree model that the transformer works on.
//!
//! The front end that parses concrete source text reduces its trees to this
//! model: the node kinds the transform distinguishes are explicit variants,
//! and every other construct is an `Opaque` node that keeps an identifier for
//! the front end's own payload together with the sub-expressions that the
//! fold must still visit. Attributes and item payloads are likewise carried
//! as opaque identifiers: the transform moves them, never reads them.
//!
//! The lowered output forms stand for fixed shapes of generated code:
//!  - `Lowered { attrs, label, body }` is a block holding the runtime import
//!    followed by the attributes and a labelled unconditional loop:
//!    `{ use the runtime; attrs 'label: loop { body } }`;
//!  - `BreakOk { label, value }` is `break 'label from_ok(value)`;
//!  - `MatchTry { attrs, label, scrutinee }` is
//!    `attrs match into_result(scrutinee) { Ok(v) => v,
//!    Err(e) => break 'label from_error(From::from(e)) }`.
//!
//! A scope label is a number; the front end renders it as a loop-label
//! identifier under a reserved prefix, so distinct numbers give distinct
//! labels.
//!
//! Each executable type has a spec twin (`ExprS`, `StmtS`) over `Seq`, the
//! shape the transformer's contracts and laws are stated in, and `view_expr`
//! and friends map one onto the other.

use vstd::prelude::*;

verus! {

/// An expression node, as the transform distinguishes them.
#[derive(Debug, PartialEq, Eq)]
pub enum Expr {
    /// A `try { ... }` block expression with its attributes.
    TryBlock { attrs: Vec<u64>, stmts: Vec<Stmt> },
    /// An early-exit operator `inner?` with its attributes.
    Try { attrs: Vec<u64>, inner: Box<Expr> },
    /// The unit expression `()`.
    Unit,
    /// Any other expression: an opaque payload identifier of the front end,
    /// together with the direct sub-expressions still visited by the fold.
    Opaque { id: u64, subs: Vec<Expr> },
    /// Generated: the lowered replacement of a whole try-block.
    Lowered { attrs: Vec<u64>, label: usize, body: Vec<Stmt> },
    /// Generated: a labelled break carrying the success-wrapped value.
    BreakOk { label: usize, value: Box<Expr> },
    /// Generated: the two-arm match that a rewritten early-exit becomes.
    MatchTry { attrs: Vec<u64>, label: usize, scrutinee: Box<Expr> },
}

/// A statement node.
#[derive(Debug, PartialEq, Eq)]
pub enum Stmt {
    /// A local binding with an opaque pattern payload and an optional
    /// initializer expression, which the fold visits.
    Local { id: u64, init: Option<Expr> },
    /// A nested item definition (function, type, impl): the fold never
    /// descends into its body.
    Item { id: u64, body: Vec<Stmt> },
    /// A trailing expression statement: the block's implicit value.
    Expr { e: Expr },
    /// An expression statement terminated by a semicolon.
    Semi { e: Expr },
}

/// Spec twin of `Expr`.
#[verifier::ext_equal]
pub enum ExprS {
    TryBlock { attrs: Seq<u64>, stmts: Seq<StmtS> },
    Try { attrs: Seq<u64>, inner: Box<ExprS> },
    Unit,
    Opaque { id: u64, subs: Seq<ExprS> },
    Lowered { attrs: Seq<u64>, label: int, body: Seq<StmtS> },
    BreakOk { label: int, value: Box<ExprS> },
    MatchTry { attrs: Seq<u64>, label: int, scrutinee: Box<ExprS> },
}

/// Spec twin of `Stmt`.
#[verifier::ext_equal]
pub enum StmtS {
    Local { id: u64, init: Option<ExprS> },
    Item { id: u64, body: Seq<StmtS> },
    Expr { e: ExprS },
    Semi { e: ExprS },
}

pub open spec fn view_expr(e: Expr) -> ExprS
    decreases e, 1int,
{
    match e {
        Expr::TryBlock { attrs, stmts } => ExprS::TryBlock {
            attrs: attrs@,
            stmts: view_stmts(stmts@),
        },
        Expr::Try { attrs, inner } => ExprS::Try {
            attrs: attrs@,
            inner: Box::new(view_expr(*inner)),
        },
        Expr::Unit => ExprS::Unit,
        Expr::Opaque { id, subs } => ExprS::Opaque { id, subs: view_exprs(subs@) },
        Expr::Lowered { attrs, label, body } => ExprS::Lowered {
            attrs: attrs@,
            label: label as int,
            body: view_stmts(body@),
        },
        Expr::BreakOk { label, value } => ExprS::BreakOk {
            label: label as int,
            value: Box::new(view_expr(*value)),
        },
        Expr::MatchTry { attrs, label, scrutinee } => ExprS::MatchTry {
            attrs: attrs@,
            label: label as int,
            scrutinee: Box::new(view_expr(*scrutinee)),
        },
    }
}

pub open spec fn view_stmt(s: Stmt) -> StmtS
    decreases s, 1int,
{
    match s {
        Stmt::Local { id, init } => StmtS::Local {
            id,
            init: match init {
                Some(e) => Some(view_expr(e)),
                None => None,
            },
        },
        Stmt::Item { id, body } => StmtS::Item { id, body: view_stmts(body@) },
        Stmt::Expr { e } => StmtS::Expr { e: view_expr(e) },
        Stmt::Semi { e } => StmtS::Semi { e: view_expr(e) },
    }
}

pub open spec fn view_stmts(v: Seq<Stmt>) -> Seq<StmtS>
    decreases v, 0int,
{
    if v.len() == 0 {
        Seq::empty()
    } else {
        view_stmts(v.drop_last()).push(view_stmt(v.last()))
    }
}

pub open spec fn view_exprs(v: Seq<Expr>) -> Seq<ExprS>
    decreases v, 0int,
{
    if v.len() == 0 {
        Seq::empty()
    } else {
        view_exprs(v.drop_last()).push(view_expr(v.last()))
    }
}

pub proof fn lemma_view_stmts(v: Seq<Stmt>)
    ensures
        view_stmts(v).len() == v.len(),
        forall|i: int| 0 <= i < v.len() ==> view_stmts(v)[i] == view_stmt(v[i]),
    decreases v,
{
    if v.len() > 0 {
        lemma_view_stmts(v.drop_last());
    }
}

pub proof fn lemma_view_exprs(v: Seq<Expr>)
    ensures
        view_exprs(v).len() == v.len(),
        forall|i: int| 0 <= i < v.len() ==> view_exprs(v)[i] == view_expr(v[i]),
    decreases v,
{
    if v.len() > 0 {
        lemma_view_exprs(v.drop_last());
    }
}

pub proof fn lemma_view_stmts_push(v: Seq<Stmt>, x: Stmt)
    ensures
        view_stmts(v.push(x)) == view_stmts(v).push(view_stmt(x)),
{
    assert(v.push(x).drop_last() =~= v);
}

pub proof fn lemma_view_exprs_push(v: Seq<Expr>, x: Expr)
    ensures
        view_exprs(v.push(x)) == view_exprs(v).push(view_expr(x)),
{
    assert(v.push(x).drop_last() =~= v);
}

pub proof fn lemma_view_stmts_update(v: Seq<Stmt>, i: int, x: Stmt)
    requires
        0 <= i < v.len(),
    ensures
        view_stmts(v.update(i, x)) == view_stmts(v).update(i, view_stmt(x)),
{
    lemma_view_stmts(v);
    lemma_view_stmts(v.update(i, x));
    assert(view_stmts(v.update(i, x)) =~= view_stmts(v).update(i, view_stmt(x)));
}

/// Duplicate a list of opaque identifiers.
pub fn copy_ids(v: &Vec<u64>) -> (r: Vec<u64>)
    ensures
        r@ == v@,
{
    let mut r: Vec<u64> = Vec::new();
    let mut i: usize = 0;
    while i < v.len()
        invariant
            i <= v.len(),
            r@ == v@.subrange(0, i as int),
        decreases v.len() - i,
    {
        r.push(v[i]);
        i = i + 1;
        proof {
            assert(v@.subrange(0, i as int) =~= v@.subrange(0, i - 1).push(v@[i - 1]));
        }
    }
    proof {
        assert(v@.subrange(0, v.len() as int) =~= v@);
    }
    r
}

/// Duplicate an expression tree; the copy has the same view.
pub fn copy_expr(e: &Expr) -> (r: Expr)
    ensures
        view_expr(r) == view_expr(*e),
    decreases e, 1int,
{
    match e {
        Expr::TryBlock { attrs, stmts } => Expr::TryBlock {
            attrs: copy_ids(attrs),
            stmts: copy_stmts(stmts),
        },
        Expr::Try { attrs, inner } => Expr::Try {
            attrs: copy_ids(attrs),
            inner: Box::new(copy_expr(inner)),
        },
        Expr::Unit => Expr::Unit,
        Expr::Opaque { id, subs } => Expr::Opaque { id: *id, subs: copy_exprs(subs) },
        Expr::Lowered { attrs, label, body } => Expr::Lowered {
            attrs: copy_ids(attrs),
            label: *label,
            body: copy_stmts(body),
        },
        Expr::BreakOk { label, value } => Expr::BreakOk {
            label: *label,
            value: Box::new(copy_expr(value)),
        },
        Expr::MatchTry { attrs, label, scrutinee } => Expr::MatchTry {
            attrs: copy_ids(attrs),
            label: *label,
            scrutinee: Box::new(copy_expr(scrutinee)),
        },
    }
}

/// Duplicate a statement; the copy has the same view.
pub fn copy_stmt(s: &Stmt) -> (r: Stmt)
    ensures
        view_stmt(r) == view_stmt(*s),
    decreases s, 1int,
{
    match s {
        Stmt::Local { id, init } => Stmt::Local {
            id: *id,
            init: match init {
                Some(e) => Some(copy_expr(e)),
                None => None,
            },
        },
        Stmt::Item { id, body } => Stmt::Item { id: *id, body: copy_stmts(body) },
        Stmt::Expr { e } => Stmt::Expr { e: copy_expr(e) },
        Stmt::Semi { e } => Stmt::Semi { e: copy_expr(e) },
    }
}

/// Duplicate a statement list; the copy has the same view.
pub fn copy_stmts(v: &Vec<Stmt>) -> (r: Vec<Stmt>)
    ensures
        view_stmts(r@) == view_stmts(v@),
    decreases v, 0int,
{
    let mut r: Vec<Stmt> = Vec::new();
    let mut i: usize = 0;
    while i < v.len()
        invariant
            i <= v.len(),
            view_stmts(r@) == view_stmts(v@.subrange(0, i as int)),
        decreases v.len() - i,
    {
        let c = copy_stmt(&v[i]);
        proof {
            lemma_view_stmts_push(r@, c);
            lemma_view_stmts_push(v@.subrange(0, i as int), v@[i as int]);
            assert(v@.subrange(0, i + 1) =~= v@.subrange(0, i as int).push(v@[i as int]));
        }
        r.push(c);
        i = i + 1;
    }
    proof {
        assert(v@.subrange(0, v.len() as int) =~= v@);
    }
    r
}

/// Duplicate an expression list; the copy has the same view.
pub fn copy_exprs(v: &Vec<Expr>) -> (r: Vec<Expr>)
    ensures
        view_exprs(r@) == view_exprs(v@),
    decreases v, 0int,
{
    let mut r: Vec<Expr> = Vec::new();
    let mut i: usize = 0;
    while i < v.len()
        invariant
            i <= v.len(),
            view_exprs(r@) == view_exprs(v@.subrange(0, i as int)),
        decreases v.len() - i,
    {
        let c = copy_expr(&v[i]);
        proof {
            lemma_view_exprs_push(r@, c);
            lemma_view_exprs_push(v@.subrange(0, i as int), v@[i as int]);
            assert(v@.subrange(0, i + 1) =~= v@.subrange(0, i as int).push(v@[i as int]));
        }
        r.push(c);
        i = i + 1;
    }
    proof {
        assert(v@.subrange(0, v.len() as int) =~= v@);
    }
    r
}

} // verus!
