//! The try-scope transformer.
//!
//! `fold_expr_s` and its companions give the transform's meaning as one
//! recursive definition over the spec trees: a try-block becomes a labelled
//! loop whose tail statement breaks out with the success-wrapped block value,
//! and an early-exit operator inside a try-scope becomes a match that either
//! yields the unwrapped value or breaks to the innermost scope's label with
//! the failure payload. The executable `TryBlocksExpander` carries the stack
//! of active scopes and the fresh-label counter, and each of its methods is
//! proved to produce exactly the tree this definition gives.

use crate::ast::{
    copy_expr, copy_ids, copy_stmt, lemma_view_exprs, lemma_view_exprs_push, lemma_view_stmts,
    lemma_view_stmts_push, lemma_view_stmts_update, view_expr, view_exprs, view_stmt, view_stmts,
    Expr, ExprS, Stmt, StmtS,
};
use vstd::prelude::*;

verus! {

/// How many try-blocks the fold enters in `e`: what the scope counter
/// advances by. Nested items are not entered, so their try-blocks do not
/// count.
pub open spec fn n_try_blocks_expr(e: ExprS) -> nat
    decreases e, 1int,
{
    match e {
        ExprS::TryBlock { attrs, stmts } => 1 + n_try_blocks_stmts(stmts),
        ExprS::Try { attrs, inner } => n_try_blocks_expr(*inner),
        ExprS::Opaque { id, subs } => n_try_blocks_exprs(subs),
        _ => 0,
    }
}

pub open spec fn n_try_blocks_stmt(s: StmtS) -> nat
    decreases s, 1int,
{
    match s {
        StmtS::Local { id, init } => match init {
            Some(e) => n_try_blocks_expr(e),
            None => 0,
        },
        StmtS::Item { id, body } => 0,
        StmtS::Expr { e } => n_try_blocks_expr(e),
        StmtS::Semi { e } => n_try_blocks_expr(e),
    }
}

pub open spec fn n_try_blocks_stmts(ss: Seq<StmtS>) -> nat
    decreases ss, 0int,
{
    if ss.len() == 0 {
        0
    } else {
        n_try_blocks_stmts(ss.drop_last()) + n_try_blocks_stmt(ss.last())
    }
}

pub open spec fn n_try_blocks_exprs(es: Seq<ExprS>) -> nat
    decreases es, 0int,
{
    if es.len() == 0 {
        0
    } else {
        n_try_blocks_exprs(es.drop_last()) + n_try_blocks_expr(es.last())
    }
}

/// Index of the last statement that is not an item declaration, scanning
/// from the end; `None` when every statement is an item (or there is none).
pub open spec fn last_non_item_s(ss: Seq<StmtS>) -> Option<int>
    decreases ss,
{
    if ss.len() == 0 {
        None
    } else if !(ss.last() is Item) {
        Some(ss.len() - 1)
    } else {
        last_non_item_s(ss.drop_last())
    }
}

/// `break 'label from_ok(value)`.
pub open spec fn break_ok_s(label: int, value: ExprS) -> ExprS {
    ExprS::BreakOk { label, value: Box::new(value) }
}

/// The tail rewrite of a try-block's folded statement list: the last
/// non-item statement, if it is a trailing expression, is wrapped in place
/// into a labelled success break; otherwise the block's value is unit and a
/// `break 'label from_ok(())` statement is appended.
pub open spec fn rewrite_tail_s(label: int, ss: Seq<StmtS>) -> Seq<StmtS> {
    match last_non_item_s(ss) {
        Some(i) => match ss[i] {
            StmtS::Expr { e } => ss.update(i, StmtS::Expr { e: break_ok_s(label, e) }),
            _ => ss.push(StmtS::Semi { e: break_ok_s(label, ExprS::Unit) }),
        },
        None => ss.push(StmtS::Semi { e: break_ok_s(label, ExprS::Unit) }),
    }
}

/// Folding one expression under scope stack `st` with next fresh id `n`:
/// gives the folded expression and the advanced counter.
pub open spec fn fold_expr_s(st: Seq<int>, n: int, e: ExprS) -> (ExprS, int)
    decreases e, 0int,
{
    match e {
        ExprS::TryBlock { attrs, stmts } => lower_try_block_s(st, n, attrs, stmts),
        ExprS::Try { attrs, inner } => {
            let (fi, n1) = fold_expr_s(st, n, *inner);
            if st.len() > 0 {
                (ExprS::MatchTry { attrs, label: st.last(), scrutinee: Box::new(fi) }, n1)
            } else {
                (ExprS::Try { attrs, inner: Box::new(fi) }, n1)
            }
        },
        ExprS::Opaque { id, subs } => {
            let (fs, n1) = fold_exprs_s(st, n, subs);
            (ExprS::Opaque { id, subs: fs }, n1)
        },
        _ => (e, n),
    }
}

/// Lowering a try-block: push a fresh scope labelled `n`, fold the body with
/// it active, rewrite the tail, and wrap the result in the labelled loop.
pub open spec fn lower_try_block_s(st: Seq<int>, n: int, attrs: Seq<u64>, stmts: Seq<StmtS>) -> (
    ExprS,
    int,
)
    decreases stmts, 1int,
{
    let (body, n1) = fold_stmts_s(st.push(n), n + 1, stmts);
    (ExprS::Lowered { attrs, label: n, body: rewrite_tail_s(n, body) }, n1)
}

pub open spec fn fold_stmt_s(st: Seq<int>, n: int, s: StmtS) -> (StmtS, int)
    decreases s, 1int,
{
    match s {
        StmtS::Local { id, init } => match init {
            Some(e) => {
                let (fe, n1) = fold_expr_s(st, n, e);
                (StmtS::Local { id, init: Some(fe) }, n1)
            },
            None => (s, n),
        },
        StmtS::Item { id, body } => (s, n),
        StmtS::Expr { e } => {
            let (fe, n1) = fold_expr_s(st, n, e);
            (StmtS::Expr { e: fe }, n1)
        },
        StmtS::Semi { e } => {
            let (fe, n1) = fold_expr_s(st, n, e);
            (StmtS::Semi { e: fe }, n1)
        },
    }
}

pub open spec fn fold_stmts_s(st: Seq<int>, n: int, ss: Seq<StmtS>) -> (Seq<StmtS>, int)
    decreases ss, 0int,
{
    if ss.len() == 0 {
        (Seq::empty(), n)
    } else {
        let (front, n1) = fold_stmts_s(st, n, ss.drop_last());
        let (last, n2) = fold_stmt_s(st, n1, ss.last());
        (front.push(last), n2)
    }
}

pub open spec fn fold_exprs_s(st: Seq<int>, n: int, es: Seq<ExprS>) -> (Seq<ExprS>, int)
    decreases es, 0int,
{
    if es.len() == 0 {
        (Seq::empty(), n)
    } else {
        let (front, n1) = fold_exprs_s(st, n, es.drop_last());
        let (last, n2) = fold_expr_s(st, n1, es.last());
        (front.push(last), n2)
    }
}

/// The counter advances by exactly the number of try-blocks entered.
pub proof fn lemma_fold_expr_counter(st: Seq<int>, n: int, e: ExprS)
    ensures
        fold_expr_s(st, n, e).1 == n + n_try_blocks_expr(e),
    decreases e, 0int,
{
    match e {
        ExprS::TryBlock { attrs, stmts } => {
            lemma_fold_stmts_counter(st.push(n), n + 1, stmts);
            assert(fold_expr_s(st, n, e) == lower_try_block_s(st, n, attrs, stmts));
        },
        ExprS::Try { attrs, inner } => {
            lemma_fold_expr_counter(st, n, *inner);
        },
        ExprS::Opaque { id, subs } => {
            lemma_fold_exprs_counter(st, n, subs);
        },
        _ => {},
    }
}

pub proof fn lemma_fold_stmt_counter(st: Seq<int>, n: int, s: StmtS)
    ensures
        fold_stmt_s(st, n, s).1 == n + n_try_blocks_stmt(s),
    decreases s, 1int,
{
    match s {
        StmtS::Local { id, init } => match init {
            Some(e) => lemma_fold_expr_counter(st, n, e),
            None => {},
        },
        StmtS::Item { id, body } => {},
        StmtS::Expr { e } => lemma_fold_expr_counter(st, n, e),
        StmtS::Semi { e } => lemma_fold_expr_counter(st, n, e),
    }
}

pub proof fn lemma_fold_stmts_counter(st: Seq<int>, n: int, ss: Seq<StmtS>)
    ensures
        fold_stmts_s(st, n, ss).1 == n + n_try_blocks_stmts(ss),
    decreases ss, 0int,
{
    if ss.len() > 0 {
        lemma_fold_stmts_counter(st, n, ss.drop_last());
        lemma_fold_stmt_counter(st, fold_stmts_s(st, n, ss.drop_last()).1, ss.last());
    }
}

pub proof fn lemma_fold_exprs_counter(st: Seq<int>, n: int, es: Seq<ExprS>)
    ensures
        fold_exprs_s(st, n, es).1 == n + n_try_blocks_exprs(es),
    decreases es, 0int,
{
    if es.len() > 0 {
        lemma_fold_exprs_counter(st, n, es.drop_last());
        lemma_fold_expr_counter(st, fold_exprs_s(st, n, es.drop_last()).1, es.last());
    }
}

pub proof fn lemma_n_try_blocks_stmts_add(a: Seq<StmtS>, b: Seq<StmtS>)
    ensures
        n_try_blocks_stmts(a + b) == n_try_blocks_stmts(a) + n_try_blocks_stmts(b),
    decreases b.len(),
{
    if b.len() == 0 {
        assert(a + b =~= a);
    } else {
        lemma_n_try_blocks_stmts_add(a, b.drop_last());
        assert((a + b).drop_last() =~= a + b.drop_last());
        assert((a + b).last() == b.last());
    }
}

pub proof fn lemma_n_try_blocks_exprs_add(a: Seq<ExprS>, b: Seq<ExprS>)
    ensures
        n_try_blocks_exprs(a + b) == n_try_blocks_exprs(a) + n_try_blocks_exprs(b),
    decreases b.len(),
{
    if b.len() == 0 {
        assert(a + b =~= a);
    } else {
        lemma_n_try_blocks_exprs_add(a, b.drop_last());
        assert((a + b).drop_last() =~= a + b.drop_last());
        assert((a + b).last() == b.last());
    }
}

pub proof fn lemma_n_try_blocks_stmts_split(vs: Seq<StmtS>, i: int)
    requires
        0 <= i < vs.len(),
    ensures
        n_try_blocks_stmts(vs) == n_try_blocks_stmts(vs.subrange(0, i)) + n_try_blocks_stmt(
            vs[i],
        ) + n_try_blocks_stmts(vs.subrange(i + 1, vs.len() as int)),
{
    assert(vs.subrange(0, i + 1) + vs.subrange(i + 1, vs.len() as int) =~= vs);
    lemma_n_try_blocks_stmts_add(vs.subrange(0, i + 1), vs.subrange(i + 1, vs.len() as int));
    assert(vs.subrange(0, i + 1).drop_last() =~= vs.subrange(0, i));
    assert(vs.subrange(0, i + 1).last() == vs[i]);
}

pub proof fn lemma_n_try_blocks_exprs_split(vs: Seq<ExprS>, i: int)
    requires
        0 <= i < vs.len(),
    ensures
        n_try_blocks_exprs(vs) == n_try_blocks_exprs(vs.subrange(0, i)) + n_try_blocks_expr(
            vs[i],
        ) + n_try_blocks_exprs(vs.subrange(i + 1, vs.len() as int)),
{
    assert(vs.subrange(0, i + 1) + vs.subrange(i + 1, vs.len() as int) =~= vs);
    lemma_n_try_blocks_exprs_add(vs.subrange(0, i + 1), vs.subrange(i + 1, vs.len() as int));
    assert(vs.subrange(0, i + 1).drop_last() =~= vs.subrange(0, i));
    assert(vs.subrange(0, i + 1).last() == vs[i]);
}

/// Expanding a whole annotated item: its body is folded with the scope
/// stack as given; any other statement is left unchanged.
pub open spec fn expand_item_s(st: Seq<int>, n: int, s: StmtS) -> (StmtS, int) {
    match s {
        StmtS::Item { id, body } => {
            let (fb, n1) = fold_stmts_s(st, n, body);
            (StmtS::Item { id, body: fb }, n1)
        },
        _ => (s, n),
    }
}

/// The tail rewrite, executably: scan from the end for the last statement
/// that is not an item declaration and wrap or append the success break.
pub fn rewrite_tail(label: usize, body: Vec<Stmt>) -> (r: Vec<Stmt>)
    ensures
        view_stmts(r@) == rewrite_tail_s(label as int, view_stmts(body@)),
{
    let mut body = body;
    let ghost orig: Seq<Stmt> = body@;
    let ghost vs: Seq<StmtS> = view_stmts(body@);
    let mut j: usize = body.len();
    proof {
        lemma_view_stmts(orig);
        assert(vs.subrange(0, vs.len() as int) =~= vs);
    }
    loop
        invariant
            j <= body.len(),
            body@ == orig,
            vs == view_stmts(orig),
            vs.len() == orig.len(),
            last_non_item_s(vs) == last_non_item_s(vs.subrange(0, j as int)),
        ensures
            j <= body.len(),
            body@ == orig,
            vs.len() == orig.len(),
            last_non_item_s(vs) == last_non_item_s(vs.subrange(0, j as int)),
            j == 0 || !(vs[j - 1] is Item),
        decreases j,
    {
        if j == 0 {
            break;
        }
        let found = match &body[j - 1] {
            Stmt::Item { .. } => false,
            _ => true,
        };
        proof {
            lemma_view_stmts(orig);
            assert(vs.subrange(0, j as int).drop_last() =~= vs.subrange(0, j - 1));
        }
        if found {
            break;
        }
        j = j - 1;
    }
    proof {
        lemma_view_stmts(orig);
    }
    if j == 0 {
        proof {
            assert(vs.subrange(0, 0) =~= Seq::<StmtS>::empty());
            assert(last_non_item_s(Seq::<StmtS>::empty()) is None);
            assert(view_expr(Expr::Unit) == ExprS::Unit);
            assert(view_stmt(Stmt::Semi { e: Expr::BreakOk { label, value: Box::new(Expr::Unit) } })
                == StmtS::Semi { e: break_ok_s(label as int, ExprS::Unit) });
            lemma_view_stmts_push(
                orig,
                Stmt::Semi { e: Expr::BreakOk { label, value: Box::new(Expr::Unit) } },
            );
        }
        body.push(Stmt::Semi { e: Expr::BreakOk { label, value: Box::new(Expr::Unit) } });
        body
    } else {
        let i = j - 1;
        proof {
            assert(vs.subrange(0, j as int).last() == vs[i as int]);
            assert(last_non_item_s(vs) == Some(i as int));
        }
        let s = body.remove(i);
        match s {
            Stmt::Expr { e } => {
                let ne = Stmt::Expr { e: Expr::BreakOk { label, value: Box::new(e) } };
                proof {
                    assert(orig.remove(i as int).insert(i as int, ne) =~= orig.update(
                        i as int,
                        ne,
                    ));
                    assert(view_stmt(ne) == StmtS::Expr { e: break_ok_s(label as int, view_expr(e)) });
                    lemma_view_stmts_update(orig, i as int, ne);
                }
                body.insert(i, ne);
                body
            },
            other => {
                proof {
                    assert(orig.remove(i as int).insert(i as int, other) =~= orig);
                    assert(view_expr(Expr::Unit) == ExprS::Unit);
                    assert(view_stmt(Stmt::Semi { e: Expr::BreakOk { label, value: Box::new(Expr::Unit) } })
                        == StmtS::Semi { e: break_ok_s(label as int, ExprS::Unit) });
                    lemma_view_stmts_push(
                        orig,
                        Stmt::Semi { e: Expr::BreakOk { label, value: Box::new(Expr::Unit) } },
                    );
                }
                body.insert(i, other);
                body.push(Stmt::Semi { e: Expr::BreakOk { label, value: Box::new(Expr::Unit) } });
                body
            },
        }
    }
}

/// One lexically active try-scope. Its fresh `id` doubles as the loop label
/// of the lowered block: the front end renders id `k` as a label identifier
/// under a reserved prefix, so distinct ids give distinct labels.
pub struct Scope {
    pub id: usize,
}

/// The try-scope transformer's state: the stack of active scopes, top =
/// innermost, and the counter from which fresh scope ids are drawn. The
/// counter is per run, not per nesting depth: a scope opened after a sibling
/// was closed still gets an id no earlier scope ever had.
pub struct TryBlocksExpander {
    pub try_scopes: Vec<Scope>,
    pub next_scope_id: usize,
}

impl TryBlocksExpander {
    /// The stack of scope label ids, innermost last.
    pub open spec fn scopes_view(&self) -> Seq<int> {
        self.try_scopes@.map_values(|s: Scope| s.id as int)
    }

    /// A fresh transformer: empty scope stack, ids starting at zero.
    pub fn new() -> (r: Self)
        ensures
            r.scopes_view() == Seq::<int>::empty(),
            r.next_scope_id == 0,
    {
        let r = TryBlocksExpander { try_scopes: Vec::new(), next_scope_id: 0 };
        proof {
            assert(r.scopes_view() =~= Seq::<int>::empty());
        }
        r
    }

    /// Push a fresh scope and hand back its label id.
    pub fn open_scope(&mut self) -> (r: usize)
        requires
            old(self).next_scope_id < usize::MAX,
        ensures
            r == old(self).next_scope_id,
            final(self).next_scope_id == old(self).next_scope_id + 1,
            final(self).try_scopes@ == old(self).try_scopes@.push(Scope { id: r }),
            final(self).scopes_view() == old(self).scopes_view().push(r as int),
    {
        let scope_id = self.next_scope_id;
        self.try_scopes.push(Scope { id: scope_id });
        self.next_scope_id = scope_id + 1;
        proof {
            assert(self.scopes_view() =~= old(self).scopes_view().push(scope_id as int));
        }
        scope_id
    }

    /// Pop the innermost scope and hand back its label id.
    pub fn close_scope(&mut self) -> (r: usize)
        requires
            old(self).try_scopes@.len() > 0,
        ensures
            r == old(self).try_scopes@.last().id,
            final(self).next_scope_id == old(self).next_scope_id,
            final(self).try_scopes@ == old(self).try_scopes@.drop_last(),
            final(self).scopes_view() == old(self).scopes_view().drop_last(),
    {
        let scope = match self.try_scopes.pop() {
            Some(s) => s,
            None => {
                proof {
                    assert(false);
                }
                Scope { id: 0 }
            },
        };
        proof {
            assert(self.scopes_view() =~= old(self).scopes_view().drop_last());
        }
        scope.id
    }

    /// The innermost active scope's label id, if a try-scope is active.
    pub fn current_scope(&self) -> (r: Option<usize>)
        ensures
            self.scopes_view().len() > 0 ==> r == Some(self.try_scopes@.last().id),
            self.scopes_view().len() == 0 ==> r is None,
    {
        if self.try_scopes.len() > 0 {
            Some(self.try_scopes[self.try_scopes.len() - 1].id)
        } else {
            None
        }
    }

    /// Fold one expression: try-blocks are lowered, early-exit operators are
    /// rewritten against the innermost scope, everything else is folded
    /// structurally, and already-lowered forms pass through as leaves.
    pub fn fold_expr(&mut self, e: &Expr) -> (r: Expr)
        requires
            old(self).next_scope_id + n_try_blocks_expr(view_expr(*e)) <= usize::MAX,
        ensures
            final(self).try_scopes@ == old(self).try_scopes@,
            ({
                let (rs, n2) = fold_expr_s(
                    old(self).scopes_view(),
                    old(self).next_scope_id as int,
                    view_expr(*e),
                );
                view_expr(r) == rs && final(self).next_scope_id as int == n2
            }),
        decreases e, 0int,
    {
        match e {
            Expr::TryBlock { attrs, stmts } => {
                proof {
                    assert(n_try_blocks_expr(view_expr(*e)) == 1 + n_try_blocks_stmts(
                        view_stmts(stmts@),
                    ));
                }
                let r = self.expand_try_block(attrs, stmts);
                proof {
                    assert(fold_expr_s(
                        old(self).scopes_view(),
                        old(self).next_scope_id as int,
                        view_expr(*e),
                    ) == lower_try_block_s(
                        old(self).scopes_view(),
                        old(self).next_scope_id as int,
                        attrs@,
                        view_stmts(stmts@),
                    ));
                }
                r
            },
            Expr::Try { attrs, inner } => self.expand_try(attrs, inner),
            Expr::Unit => Expr::Unit,
            Expr::Opaque { id, subs } => {
                proof {
                    assert(n_try_blocks_expr(view_expr(*e)) == n_try_blocks_exprs(
                        view_exprs(subs@),
                    ));
                }
                let fs = self.fold_exprs(subs);
                Expr::Opaque { id: *id, subs: fs }
            },
            Expr::Lowered { .. } => copy_expr(e),
            Expr::BreakOk { .. } => copy_expr(e),
            Expr::MatchTry { .. } => copy_expr(e),
        }
    }

    /// Rewrite one early-exit operator. Inside a try-scope, the operand's
    /// decomposition is matched and failure breaks to the innermost scope's
    /// label; outside any try-scope the operator is left as it stands, so
    /// the host's native early-exit meaning applies unchanged.
    pub fn expand_try(&mut self, attrs: &Vec<u64>, inner: &Expr) -> (r: Expr)
        requires
            old(self).next_scope_id + n_try_blocks_expr(view_expr(*inner)) <= usize::MAX,
        ensures
            final(self).try_scopes@ == old(self).try_scopes@,
            ({
                let st = old(self).scopes_view();
                let (fi, n1) = fold_expr_s(
                    st,
                    old(self).next_scope_id as int,
                    view_expr(*inner),
                );
                final(self).next_scope_id as int == n1 && view_expr(r) == (if st.len() > 0 {
                    ExprS::MatchTry { attrs: attrs@, label: st.last(), scrutinee: Box::new(fi) }
                } else {
                    ExprS::Try { attrs: attrs@, inner: Box::new(fi) }
                })
            }),
        decreases inner, 1int,
    {
        let folded = self.fold_expr(inner);
        if self.try_scopes.len() > 0 {
            let name = self.try_scopes[self.try_scopes.len() - 1].id;
            proof {
                assert(old(self).scopes_view().last() == name as int);
            }
            Expr::MatchTry { attrs: copy_ids(attrs), label: name, scrutinee: Box::new(folded) }
        } else {
            Expr::Try { attrs: copy_ids(attrs), inner: Box::new(folded) }
        }
    }

    /// Lower one try-block: open a fresh scope, fold the statements with it
    /// active, rewrite the tail into the success break, close the scope, and
    /// wrap everything in the loop labelled with the scope's id.
    pub fn expand_try_block(&mut self, attrs: &Vec<u64>, stmts: &Vec<Stmt>) -> (r: Expr)
        requires
            old(self).next_scope_id + 1 + n_try_blocks_stmts(view_stmts(stmts@)) <= usize::MAX,
        ensures
            final(self).try_scopes@ == old(self).try_scopes@,
            ({
                let (rs, n2) = lower_try_block_s(
                    old(self).scopes_view(),
                    old(self).next_scope_id as int,
                    attrs@,
                    view_stmts(stmts@),
                );
                view_expr(r) == rs && final(self).next_scope_id as int == n2
            }),
        decreases stmts, 1int,
    {
        let scope_id = self.open_scope();
        let body = self.fold_stmts(stmts);
        let popped = self.close_scope();
        // The scope discipline is structural, so what comes off the stack is
        // provably the scope opened above, not merely checked at run time.
        assert(popped == scope_id);
        proof {
            assert(old(self).try_scopes@.push(Scope { id: scope_id }).drop_last() =~= old(
                self,
            ).try_scopes@);
        }
        let rewritten = rewrite_tail(scope_id, body);
        Expr::Lowered { attrs: copy_ids(attrs), label: scope_id, body: rewritten }
    }

    /// Fold each statement of a block in order, threading the counter.
    pub fn fold_stmts(&mut self, ss: &Vec<Stmt>) -> (r: Vec<Stmt>)
        requires
            old(self).next_scope_id + n_try_blocks_stmts(view_stmts(ss@)) <= usize::MAX,
        ensures
            final(self).try_scopes@ == old(self).try_scopes@,
            ({
                let (rs, n2) = fold_stmts_s(
                    old(self).scopes_view(),
                    old(self).next_scope_id as int,
                    view_stmts(ss@),
                );
                view_stmts(r@) == rs && final(self).next_scope_id as int == n2
            }),
        decreases ss, 0int,
    {
        let ghost st0 = old(self).scopes_view();
        let ghost n0 = old(self).next_scope_id as int;
        let ghost vs = view_stmts(ss@);
        proof {
            lemma_view_stmts(ss@);
            assert(vs.subrange(0, 0) =~= Seq::<StmtS>::empty());
            assert(vs.subrange(0, vs.len() as int) =~= vs);
        }
        let mut out: Vec<Stmt> = Vec::new();
        let mut i: usize = 0;
        while i < ss.len()
            invariant
                i <= ss.len(),
                vs == view_stmts(ss@),
                vs.len() == ss@.len(),
                forall|k: int| 0 <= k < vs.len() ==> vs[k] == view_stmt(ss@[k]),
                st0 == old(self).scopes_view(),
                n0 == old(self).next_scope_id as int,
                n0 + n_try_blocks_stmts(vs) <= usize::MAX,
                self.try_scopes@ == old(self).try_scopes@,
                self.scopes_view() == st0,
                view_stmts(out@) == fold_stmts_s(st0, n0, vs.subrange(0, i as int)).0,
                self.next_scope_id as int == fold_stmts_s(st0, n0, vs.subrange(0, i as int)).1,
            decreases ss.len() - i,
        {
            proof {
                lemma_n_try_blocks_stmts_split(vs, i as int);
                lemma_fold_stmts_counter(st0, n0, vs.subrange(0, i as int));
            }
            let fs = self.fold_stmt(&ss[i]);
            let ghost out_pre = out@;
            out.push(fs);
            i = i + 1;
            proof {
                lemma_view_stmts_push(out_pre, fs);
                assert(vs.subrange(0, i as int).drop_last() =~= vs.subrange(0, i - 1));
                assert(vs.subrange(0, i as int).last() == vs[i - 1]);
            }
        }
        proof {
            assert(vs.subrange(0, i as int) =~= vs);
        }
        out
    }

    /// Fold one statement; item declarations pass through unchanged.
    pub fn fold_stmt(&mut self, s: &Stmt) -> (r: Stmt)
        requires
            old(self).next_scope_id + n_try_blocks_stmt(view_stmt(*s)) <= usize::MAX,
        ensures
            final(self).try_scopes@ == old(self).try_scopes@,
            ({
                let (rs, n2) = fold_stmt_s(
                    old(self).scopes_view(),
                    old(self).next_scope_id as int,
                    view_stmt(*s),
                );
                view_stmt(r) == rs && final(self).next_scope_id as int == n2
            }),
        decreases s, 1int,
    {
        match s {
            Stmt::Local { id, init } => match init {
                Some(e) => {
                    let fe = self.fold_expr(e);
                    Stmt::Local { id: *id, init: Some(fe) }
                },
                None => Stmt::Local { id: *id, init: None },
            },
            Stmt::Item { .. } => self.fold_item(s),
            Stmt::Expr { e } => {
                let fe = self.fold_expr(e);
                Stmt::Expr { e: fe }
            },
            Stmt::Semi { e } => {
                let fe = self.fold_expr(e);
                Stmt::Semi { e: fe }
            },
        }
    }

    /// A nested item is left exactly as it stands: its body keeps its own
    /// early-exit operators, and the scope stack and counter do not move.
    pub fn fold_item(&mut self, item: &Stmt) -> (r: Stmt)
        requires
            view_stmt(*item) is Item,
        ensures
            final(self).try_scopes@ == old(self).try_scopes@,
            final(self).next_scope_id == old(self).next_scope_id,
            view_stmt(r) == view_stmt(*item),
    {
        copy_stmt(item)
    }

    /// Fold each sub-expression of an opaque node in order.
    pub fn fold_exprs(&mut self, es: &Vec<Expr>) -> (r: Vec<Expr>)
        requires
            old(self).next_scope_id + n_try_blocks_exprs(view_exprs(es@)) <= usize::MAX,
        ensures
            final(self).try_scopes@ == old(self).try_scopes@,
            ({
                let (rs, n2) = fold_exprs_s(
                    old(self).scopes_view(),
                    old(self).next_scope_id as int,
                    view_exprs(es@),
                );
                view_exprs(r@) == rs && final(self).next_scope_id as int == n2
            }),
        decreases es, 0int,
    {
        let ghost st0 = old(self).scopes_view();
        let ghost n0 = old(self).next_scope_id as int;
        let ghost vs = view_exprs(es@);
        proof {
            lemma_view_exprs(es@);
            assert(vs.subrange(0, 0) =~= Seq::<ExprS>::empty());
            assert(vs.subrange(0, vs.len() as int) =~= vs);
        }
        let mut out: Vec<Expr> = Vec::new();
        let mut i: usize = 0;
        while i < es.len()
            invariant
                i <= es.len(),
                vs == view_exprs(es@),
                vs.len() == es@.len(),
                forall|k: int| 0 <= k < vs.len() ==> vs[k] == view_expr(es@[k]),
                st0 == old(self).scopes_view(),
                n0 == old(self).next_scope_id as int,
                n0 + n_try_blocks_exprs(vs) <= usize::MAX,
                self.try_scopes@ == old(self).try_scopes@,
                self.scopes_view() == st0,
                view_exprs(out@) == fold_exprs_s(st0, n0, vs.subrange(0, i as int)).0,
                self.next_scope_id as int == fold_exprs_s(st0, n0, vs.subrange(0, i as int)).1,
            decreases es.len() - i,
        {
            proof {
                lemma_n_try_blocks_exprs_split(vs, i as int);
                lemma_fold_exprs_counter(st0, n0, vs.subrange(0, i as int));
            }
            let fe = self.fold_expr(&es[i]);
            let ghost out_pre = out@;
            out.push(fe);
            i = i + 1;
            proof {
                lemma_view_exprs_push(out_pre, fe);
                assert(vs.subrange(0, i as int).drop_last() =~= vs.subrange(0, i - 1));
                assert(vs.subrange(0, i as int).last() == vs[i - 1]);
            }
        }
        proof {
            assert(vs.subrange(0, i as int) =~= vs);
        }
        out
    }

    /// Expand a whole annotated item: the item's own body is folded with
    /// this transformer's stack and counter; items nested inside that body
    /// are not.
    pub fn expand_item(&mut self, item: &Stmt) -> (r: Stmt)
        requires
            view_stmt(*item) is Item,
            old(self).next_scope_id + n_try_blocks_stmts(view_stmt(*item)->body)
                <= usize::MAX,
        ensures
            final(self).try_scopes@ == old(self).try_scopes@,
            ({
                let (rs, n2) = expand_item_s(
                    old(self).scopes_view(),
                    old(self).next_scope_id as int,
                    view_stmt(*item),
                );
                view_stmt(r) == rs && final(self).next_scope_id as int == n2
            }),
    {
        match item {
            Stmt::Item { id, body } => {
                let fb = self.fold_stmts(body);
                Stmt::Item { id: *id, body: fb }
            },
            _ => copy_stmt(item),
        }
    }
}

/// The decision behind the tail rewrite, for a front end that keeps its own
/// statement representation: given which statements are item declarations,
/// the index of the last one that is not.
pub fn last_non_item_index(is_item: &Vec<bool>) -> (r: Option<usize>)
    ensures
        match r {
            Some(i) => i < is_item@.len() && !is_item@[i as int] && (forall|j: int|
                i < j < is_item@.len() ==> is_item@[j]),
            None => forall|j: int| 0 <= j < is_item@.len() ==> is_item@[j],
        },
{
    let mut j: usize = is_item.len();
    while j > 0
        invariant
            j <= is_item@.len(),
            forall|k: int| j <= k < is_item@.len() ==> is_item@[k],
        decreases j,
    {
        if !is_item[j - 1] {
            return Some(j - 1);
        }
        j = j - 1;
    }
    None
}

/// Expand an annotated item with a fresh transformer: an empty scope stack
/// and scope ids from zero. This is the whole-function transform that the
/// function-level annotation triggers.
pub fn expand(item: &Stmt) -> (r: Stmt)
    requires
        view_stmt(*item) is Item,
        n_try_blocks_stmts(view_stmt(*item)->body) <= usize::MAX,
    ensures
        view_stmt(r) == expand_item_s(Seq::empty(), 0, view_stmt(*item)).0,
{
    let mut ex = TryBlocksExpander::new();
    ex.expand_item(item)
}

/// Expand a bare statement list as one standalone try-block with a fresh
/// transformer: the inline-expression form of the transform.
pub fn expand_block(stmts: &Vec<Stmt>) -> (r: Expr)
    requires
        1 + n_try_blocks_stmts(view_stmts(stmts@)) <= usize::MAX,
    ensures
        view_expr(r) == lower_try_block_s(Seq::empty(), 0, Seq::empty(), view_stmts(stmts@)).0,
{
    let mut ex = TryBlocksExpander::new();
    let attrs: Vec<u64> = Vec::new();
    ex.expand_try_block(&attrs, stmts)
}

} // verus!
