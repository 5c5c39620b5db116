//! The transformer's laws: what holds of every fold, stated over the spec
//! trees and proved once and for all.

use crate::ast::{ExprS, StmtS};
use crate::expand::{
    break_ok_s, fold_expr_s, fold_exprs_s, fold_stmt_s, fold_stmts_s, last_non_item_s,
    lower_try_block_s, rewrite_tail_s,
};
use vstd::prelude::*;

verus! {

/// True of expressions the fold hands back unchanged: no try-block at any
/// depth, and an early-exit operator only where `bare_ok` allows one.
pub open spec fn untouched_expr(e: ExprS, bare_ok: bool) -> bool
    decreases e, 1int,
{
    match e {
        ExprS::TryBlock { attrs, stmts } => false,
        ExprS::Try { attrs, inner } => bare_ok && untouched_expr(*inner, bare_ok),
        ExprS::Opaque { id, subs } => untouched_exprs(subs, bare_ok),
        _ => true,
    }
}

pub open spec fn untouched_stmt(s: StmtS, bare_ok: bool) -> bool
    decreases s, 1int,
{
    match s {
        StmtS::Local { id, init } => match init {
            Some(e) => untouched_expr(e, bare_ok),
            None => true,
        },
        StmtS::Item { id, body } => true,
        StmtS::Expr { e } => untouched_expr(e, bare_ok),
        StmtS::Semi { e } => untouched_expr(e, bare_ok),
    }
}

pub open spec fn untouched_stmts(ss: Seq<StmtS>, bare_ok: bool) -> bool
    decreases ss, 0int,
{
    if ss.len() == 0 {
        true
    } else {
        untouched_stmts(ss.drop_last(), bare_ok) && untouched_stmt(ss.last(), bare_ok)
    }
}

pub open spec fn untouched_exprs(es: Seq<ExprS>, bare_ok: bool) -> bool
    decreases es, 0int,
{
    if es.len() == 0 {
        true
    } else {
        untouched_exprs(es.drop_last(), bare_ok) && untouched_expr(es.last(), bare_ok)
    }
}

/// Law: an expression without try-blocks — and, when no try-scope is
/// active, with its early-exit operators however it likes — folds to itself
/// exactly, and the scope counter does not move.
pub proof fn lemma_fold_identity_expr(st: Seq<int>, n: int, e: ExprS)
    requires
        untouched_expr(e, st.len() == 0),
    ensures
        fold_expr_s(st, n, e) == (e, n),
    decreases e, 0int,
{
    match e {
        ExprS::Try { attrs, inner } => {
            lemma_fold_identity_expr(st, n, *inner);
            assert(e == ExprS::Try { attrs, inner: Box::new(*inner) });
        },
        ExprS::Opaque { id, subs } => {
            lemma_fold_identity_exprs(st, n, subs);
            assert(e == ExprS::Opaque { id, subs });
        },
        _ => {},
    }
}

pub proof fn lemma_fold_identity_stmt(st: Seq<int>, n: int, s: StmtS)
    requires
        untouched_stmt(s, st.len() == 0),
    ensures
        fold_stmt_s(st, n, s) == (s, n),
    decreases s, 1int,
{
    match s {
        StmtS::Local { id, init } => match init {
            Some(e) => {
                lemma_fold_identity_expr(st, n, e);
                assert(s == StmtS::Local { id, init: Some(e) });
            },
            None => {},
        },
        StmtS::Item { id, body } => {},
        StmtS::Expr { e } => {
            lemma_fold_identity_expr(st, n, e);
            assert(s == StmtS::Expr { e });
        },
        StmtS::Semi { e } => {
            lemma_fold_identity_expr(st, n, e);
            assert(s == StmtS::Semi { e });
        },
    }
}

pub proof fn lemma_fold_identity_stmts(st: Seq<int>, n: int, ss: Seq<StmtS>)
    requires
        untouched_stmts(ss, st.len() == 0),
    ensures
        fold_stmts_s(st, n, ss) == (ss, n),
    decreases ss, 0int,
{
    if ss.len() == 0 {
        assert(fold_stmts_s(st, n, ss).0 =~= ss);
    } else {
        lemma_fold_identity_stmts(st, n, ss.drop_last());
        lemma_fold_identity_stmt(st, n, ss.last());
        assert(ss.drop_last().push(ss.last()) =~= ss);
    }
}

pub proof fn lemma_fold_identity_exprs(st: Seq<int>, n: int, es: Seq<ExprS>)
    requires
        untouched_exprs(es, st.len() == 0),
    ensures
        fold_exprs_s(st, n, es) == (es, n),
    decreases es, 0int,
{
    if es.len() == 0 {
        assert(fold_exprs_s(st, n, es).0 =~= es);
    } else {
        lemma_fold_identity_exprs(st, n, es.drop_last());
        lemma_fold_identity_expr(st, n, es.last());
        assert(es.drop_last().push(es.last()) =~= es);
    }
}

/// Law (bare early-exit passthrough): outside any try-block, an expression
/// that uses early-exit operators but holds no try-block is left structurally
/// unchanged — no match or break is synthesized anywhere in it.
pub proof fn lemma_bare_early_exit_passthrough(n: int, e: ExprS)
    requires
        untouched_expr(e, true),
    ensures
        fold_expr_s(Seq::empty(), n, e) == (e, n),
{
    lemma_fold_identity_expr(Seq::empty(), n, e);
}

/// Law (scope non-leak): an item defined lexically inside a transformed
/// region is not rewritten — the fold hands it back identically, body and
/// all, and neither the scope stack nor the counter is consulted or moved.
pub proof fn lemma_item_not_rewritten(st: Seq<int>, n: int, id: u64, body: Seq<StmtS>)
    ensures
        fold_stmt_s(st, n, StmtS::Item { id, body }) == (StmtS::Item { id, body }, n),
{
}

/// What `last_non_item_s` finds: the rightmost statement that is not an
/// item declaration — everything to its right is an item; `None` exactly
/// when the list holds items alone.
pub proof fn lemma_last_non_item(ss: Seq<StmtS>)
    ensures
        match last_non_item_s(ss) {
            Some(i) => 0 <= i < ss.len() && !(ss[i] is Item) && (forall|j: int|
                i < j < ss.len() ==> ss[j] is Item),
            None => forall|j: int| 0 <= j < ss.len() ==> ss[j] is Item,
        },
    decreases ss,
{
    if ss.len() > 0 && ss.last() is Item {
        lemma_last_non_item(ss.drop_last());
        let d = ss.drop_last();
        match last_non_item_s(d) {
            Some(i) => {
                assert forall|j: int| i < j < ss.len() implies ss[j] is Item by {
                    if j < ss.len() - 1 {
                        assert(d[j] is Item);
                    } else {
                        assert(ss[j] == ss.last());
                    }
                }
            },
            None => {
                assert forall|j: int| 0 <= j < ss.len() implies ss[j] is Item by {
                    if j < ss.len() - 1 {
                        assert(d[j] is Item);
                    } else {
                        assert(ss[j] == ss.last());
                    }
                }
            },
        }
    }
}

/// Law (item-skipping): appending item declarations to a statement list
/// never changes which statement the tail rewrite picks.
pub proof fn lemma_item_skipping(ss: Seq<StmtS>, tail: Seq<StmtS>)
    requires
        forall|j: int| 0 <= j < tail.len() ==> tail[j] is Item,
    ensures
        last_non_item_s(ss + tail) == last_non_item_s(ss),
    decreases tail.len(),
{
    if tail.len() == 0 {
        assert(ss + tail =~= ss);
    } else {
        lemma_item_skipping(ss, tail.drop_last());
        assert((ss + tail).drop_last() =~= ss + tail.drop_last());
        assert((ss + tail).last() == tail.last());
    }
}

/// Law (tail-wrapping, trailing expression): when the last non-item
/// statement is a trailing expression E, the rewrite replaces it in place by
/// `break 'label from_ok(E)` and touches nothing else.
pub proof fn lemma_tail_expression_wrapped(label: int, ss: Seq<StmtS>, i: int)
    requires
        last_non_item_s(ss) == Some(i),
        ss[i] is Expr,
    ensures
        rewrite_tail_s(label, ss) == ss.update(
            i,
            StmtS::Expr { e: break_ok_s(label, ss[i]->Expr_e) },
        ),
        rewrite_tail_s(label, ss).len() == ss.len(),
{
    lemma_last_non_item(ss);
}

/// Law (tail-wrapping, unit value): when no trailing expression exists —
/// the block is empty, or ends in declarations or semicolon statements —
/// the block's value is unit: `break 'label from_ok(())` is appended and
/// every original statement stays in place.
pub proof fn lemma_tail_unit_appended(label: int, ss: Seq<StmtS>)
    requires
        match last_non_item_s(ss) {
            Some(i) => !(ss[i] is Expr),
            None => true,
        },
    ensures
        rewrite_tail_s(label, ss) == ss.push(StmtS::Semi { e: break_ok_s(label, ExprS::Unit) }),
{
}

/// True of input trees: none of the generated output forms occurs anywhere.
pub open spec fn source_expr(e: ExprS) -> bool
    decreases e, 1int,
{
    match e {
        ExprS::TryBlock { attrs, stmts } => source_stmts(stmts),
        ExprS::Try { attrs, inner } => source_expr(*inner),
        ExprS::Unit => true,
        ExprS::Opaque { id, subs } => source_exprs(subs),
        _ => false,
    }
}

pub open spec fn source_stmt(s: StmtS) -> bool
    decreases s, 1int,
{
    match s {
        StmtS::Local { id, init } => match init {
            Some(e) => source_expr(e),
            None => true,
        },
        StmtS::Item { id, body } => source_stmts(body),
        StmtS::Expr { e } => source_expr(e),
        StmtS::Semi { e } => source_expr(e),
    }
}

pub open spec fn source_stmts(ss: Seq<StmtS>) -> bool
    decreases ss, 0int,
{
    if ss.len() == 0 {
        true
    } else {
        source_stmts(ss.drop_last()) && source_stmt(ss.last())
    }
}

pub open spec fn source_exprs(es: Seq<ExprS>) -> bool
    decreases es, 0int,
{
    if es.len() == 0 {
        true
    } else {
        source_exprs(es.drop_last()) && source_expr(es.last())
    }
}

/// The loop labels a tree defines, in pre-order: one per `Lowered` node.
/// Labels that breaks and matches refer to are uses, not definitions, and
/// are not collected.
pub open spec fn loop_labels_expr(e: ExprS) -> Seq<int>
    decreases e, 1int,
{
    match e {
        ExprS::TryBlock { attrs, stmts } => loop_labels_stmts(stmts),
        ExprS::Try { attrs, inner } => loop_labels_expr(*inner),
        ExprS::Unit => Seq::empty(),
        ExprS::Opaque { id, subs } => loop_labels_exprs(subs),
        ExprS::Lowered { attrs, label, body } => seq![label] + loop_labels_stmts(body),
        ExprS::BreakOk { label, value } => loop_labels_expr(*value),
        ExprS::MatchTry { attrs, label, scrutinee } => loop_labels_expr(*scrutinee),
    }
}

pub open spec fn loop_labels_stmt(s: StmtS) -> Seq<int>
    decreases s, 1int,
{
    match s {
        StmtS::Local { id, init } => match init {
            Some(e) => loop_labels_expr(e),
            None => Seq::empty(),
        },
        StmtS::Item { id, body } => loop_labels_stmts(body),
        StmtS::Expr { e } => loop_labels_expr(e),
        StmtS::Semi { e } => loop_labels_expr(e),
    }
}

pub open spec fn loop_labels_stmts(ss: Seq<StmtS>) -> Seq<int>
    decreases ss, 0int,
{
    if ss.len() == 0 {
        Seq::empty()
    } else {
        loop_labels_stmts(ss.drop_last()) + loop_labels_stmt(ss.last())
    }
}

pub open spec fn loop_labels_exprs(es: Seq<ExprS>) -> Seq<int>
    decreases es, 0int,
{
    if es.len() == 0 {
        Seq::empty()
    } else {
        loop_labels_exprs(es.drop_last()) + loop_labels_expr(es.last())
    }
}

pub open spec fn labels_in_range(s: Seq<int>, lo: int, hi: int) -> bool {
    forall|i: int| 0 <= i < s.len() ==> lo <= #[trigger] s[i] < hi
}

pub open spec fn strictly_increasing(s: Seq<int>) -> bool {
    forall|i: int, j: int| 0 <= i < j < s.len() ==> #[trigger] s[i] < #[trigger] s[j]
}

/// Strictly increasing label sequences have pairwise distinct entries.
pub proof fn lemma_increasing_distinct(s: Seq<int>)
    requires
        strictly_increasing(s),
    ensures
        forall|i: int, j: int| 0 <= i < j < s.len() ==> #[trigger] s[i] != #[trigger] s[j],
{
}

pub proof fn lemma_labels_concat(a: Seq<int>, b: Seq<int>, lo: int, mid: int, hi: int)
    requires
        lo <= mid <= hi,
        labels_in_range(a, lo, mid),
        strictly_increasing(a),
        labels_in_range(b, mid, hi),
        strictly_increasing(b),
    ensures
        labels_in_range(a + b, lo, hi),
        strictly_increasing(a + b),
{
    assert forall|i: int| 0 <= i < (a + b).len() implies lo <= #[trigger] (a + b)[i] < hi by {
        if i < a.len() {
            assert((a + b)[i] == a[i]);
        } else {
            assert((a + b)[i] == b[i - a.len()]);
        }
    }
    assert forall|i: int, j: int| 0 <= i < j < (a + b).len() implies #[trigger] (a + b)[i]
        < #[trigger] (a + b)[j] by {
        if j < a.len() {
            assert((a + b)[i] == a[i] && (a + b)[j] == a[j]);
        } else if i >= a.len() {
            assert((a + b)[i] == b[i - a.len()] && (a + b)[j] == b[j - a.len()]);
        } else {
            assert((a + b)[i] == a[i] && (a + b)[j] == b[j - a.len()]);
        }
    }
}

/// A source tree defines no loop labels yet.
pub proof fn lemma_source_no_labels_expr(e: ExprS)
    requires
        source_expr(e),
    ensures
        loop_labels_expr(e) == Seq::<int>::empty(),
    decreases e, 1int,
{
    match e {
        ExprS::TryBlock { attrs, stmts } => lemma_source_no_labels_stmts(stmts),
        ExprS::Try { attrs, inner } => lemma_source_no_labels_expr(*inner),
        ExprS::Opaque { id, subs } => lemma_source_no_labels_exprs(subs),
        _ => {},
    }
}

pub proof fn lemma_source_no_labels_stmt(s: StmtS)
    requires
        source_stmt(s),
    ensures
        loop_labels_stmt(s) == Seq::<int>::empty(),
    decreases s, 1int,
{
    match s {
        StmtS::Local { id, init } => match init {
            Some(e) => lemma_source_no_labels_expr(e),
            None => {},
        },
        StmtS::Item { id, body } => lemma_source_no_labels_stmts(body),
        StmtS::Expr { e } => lemma_source_no_labels_expr(e),
        StmtS::Semi { e } => lemma_source_no_labels_expr(e),
    }
}

pub proof fn lemma_source_no_labels_stmts(ss: Seq<StmtS>)
    requires
        source_stmts(ss),
    ensures
        loop_labels_stmts(ss) == Seq::<int>::empty(),
    decreases ss, 0int,
{
    if ss.len() > 0 {
        lemma_source_no_labels_stmts(ss.drop_last());
        lemma_source_no_labels_stmt(ss.last());
        assert(Seq::<int>::empty() + Seq::<int>::empty() =~= Seq::<int>::empty());
    }
}

pub proof fn lemma_source_no_labels_exprs(es: Seq<ExprS>)
    requires
        source_exprs(es),
    ensures
        loop_labels_exprs(es) == Seq::<int>::empty(),
    decreases es, 0int,
{
    if es.len() > 0 {
        lemma_source_no_labels_exprs(es.drop_last());
        lemma_source_no_labels_expr(es.last());
        assert(Seq::<int>::empty() + Seq::<int>::empty() =~= Seq::<int>::empty());
    }
}

/// Replacing one statement by another with the same loop labels leaves the
/// list's loop labels unchanged.
pub proof fn lemma_labels_stmts_update(ss: Seq<StmtS>, i: int, x: StmtS)
    requires
        0 <= i < ss.len(),
        loop_labels_stmt(x) == loop_labels_stmt(ss[i]),
    ensures
        loop_labels_stmts(ss.update(i, x)) == loop_labels_stmts(ss),
    decreases ss,
{
    let u = ss.update(i, x);
    if i == ss.len() - 1 {
        assert(u.drop_last() =~= ss.drop_last());
        assert(u.last() == x);
    } else {
        assert(u.drop_last() =~= ss.drop_last().update(i, x));
        assert(u.last() == ss.last());
        lemma_labels_stmts_update(ss.drop_last(), i, x);
    }
}

/// The tail rewrite defines no loop label of its own: the labels of the
/// rewritten list are exactly those of the folded body.
pub proof fn lemma_labels_rewrite_tail(label: int, ss: Seq<StmtS>)
    ensures
        loop_labels_stmts(rewrite_tail_s(label, ss)) == loop_labels_stmts(ss),
{
    let unit_semi = StmtS::Semi { e: break_ok_s(label, ExprS::Unit) };
    assert(loop_labels_expr(ExprS::Unit) =~= Seq::<int>::empty());
    assert(loop_labels_expr(break_ok_s(label, ExprS::Unit)) =~= Seq::<int>::empty());
    match last_non_item_s(ss) {
        Some(i) => {
            lemma_last_non_item(ss);
            match ss[i] {
                StmtS::Expr { e } => {
                    let x = StmtS::Expr { e: break_ok_s(label, e) };
                    assert(loop_labels_stmt(x) == loop_labels_stmt(ss[i]));
                    lemma_labels_stmts_update(ss, i, x);
                },
                _ => {
                    assert(ss.push(unit_semi).drop_last() =~= ss);
                    assert(loop_labels_stmt(unit_semi) =~= Seq::<int>::empty());
                    assert(loop_labels_stmts(ss) + Seq::<int>::empty() =~= loop_labels_stmts(
                        ss,
                    ));
                },
            }
        },
        None => {
            assert(ss.push(unit_semi).drop_last() =~= ss);
            assert(loop_labels_stmt(unit_semi) =~= Seq::<int>::empty());
            assert(loop_labels_stmts(ss) + Seq::<int>::empty() =~= loop_labels_stmts(ss));
        },
    }
}

/// Law (collision-free labelling): one run of the fold over a source tree
/// generates exactly the loop labels `n, n + 1, ...` up to the final
/// counter, in pre-order — all within `[n, n')`, strictly increasing, and
/// therefore pairwise distinct, whatever mix of sibling and nested
/// try-blocks the tree holds. Depth plays no part in the naming: a scope
/// opened after a sibling closed at the same depth still gets a fresh id,
/// which a depth-derived name would not give it.
pub proof fn lemma_labels_fresh_expr(st: Seq<int>, n: int, e: ExprS)
    requires
        source_expr(e),
    ensures
        ({
            let (r, n2) = fold_expr_s(st, n, e);
            &&& n <= n2
            &&& labels_in_range(loop_labels_expr(r), n, n2)
            &&& strictly_increasing(loop_labels_expr(r))
        }),
    decreases e, 0int,
{
    match e {
        ExprS::TryBlock { attrs, stmts } => {
            let st1 = st.push(n);
            lemma_labels_fresh_stmts(st1, n + 1, stmts);
            let (body, n2) = fold_stmts_s(st1, n + 1, stmts);
            lemma_labels_rewrite_tail(n, body);
            let one = seq![n];
            assert(labels_in_range(one, n, n + 1));
            assert(strictly_increasing(one));
            lemma_labels_concat(one, loop_labels_stmts(body), n, n + 1, n2);
            assert(fold_expr_s(st, n, e) == lower_try_block_s(st, n, attrs, stmts));
            assert(loop_labels_expr(fold_expr_s(st, n, e).0) == one + loop_labels_stmts(
                rewrite_tail_s(n, body),
            ));
        },
        ExprS::Try { attrs, inner } => {
            lemma_labels_fresh_expr(st, n, *inner);
        },
        ExprS::Opaque { id, subs } => {
            lemma_labels_fresh_exprs(st, n, subs);
        },
        _ => {},
    }
}

pub proof fn lemma_labels_fresh_stmt(st: Seq<int>, n: int, s: StmtS)
    requires
        source_stmt(s),
    ensures
        ({
            let (r, n2) = fold_stmt_s(st, n, s);
            &&& n <= n2
            &&& labels_in_range(loop_labels_stmt(r), n, n2)
            &&& strictly_increasing(loop_labels_stmt(r))
        }),
    decreases s, 1int,
{
    match s {
        StmtS::Local { id, init } => match init {
            Some(e) => lemma_labels_fresh_expr(st, n, e),
            None => {},
        },
        StmtS::Item { id, body } => {
            lemma_source_no_labels_stmts(body);
        },
        StmtS::Expr { e } => lemma_labels_fresh_expr(st, n, e),
        StmtS::Semi { e } => lemma_labels_fresh_expr(st, n, e),
    }
}

pub proof fn lemma_labels_fresh_stmts(st: Seq<int>, n: int, ss: Seq<StmtS>)
    requires
        source_stmts(ss),
    ensures
        ({
            let (rs, n2) = fold_stmts_s(st, n, ss);
            &&& n <= n2
            &&& labels_in_range(loop_labels_stmts(rs), n, n2)
            &&& strictly_increasing(loop_labels_stmts(rs))
        }),
    decreases ss, 0int,
{
    if ss.len() > 0 {
        lemma_labels_fresh_stmts(st, n, ss.drop_last());
        let (front, n1) = fold_stmts_s(st, n, ss.drop_last());
        lemma_labels_fresh_stmt(st, n1, ss.last());
        let (last, n2) = fold_stmt_s(st, n1, ss.last());
        assert(front.push(last).drop_last() =~= front);
        assert(loop_labels_stmts(front.push(last)) == loop_labels_stmts(front)
            + loop_labels_stmt(last));
        lemma_labels_concat(loop_labels_stmts(front), loop_labels_stmt(last), n, n1, n2);
    }
}

pub proof fn lemma_labels_fresh_exprs(st: Seq<int>, n: int, es: Seq<ExprS>)
    requires
        source_exprs(es),
    ensures
        ({
            let (rs, n2) = fold_exprs_s(st, n, es);
            &&& n <= n2
            &&& labels_in_range(loop_labels_exprs(rs), n, n2)
            &&& strictly_increasing(loop_labels_exprs(rs))
        }),
    decreases es, 0int,
{
    if es.len() > 0 {
        lemma_labels_fresh_exprs(st, n, es.drop_last());
        let (front, n1) = fold_exprs_s(st, n, es.drop_last());
        lemma_labels_fresh_expr(st, n1, es.last());
        let (last, n2) = fold_expr_s(st, n1, es.last());
        assert(front.push(last).drop_last() =~= front);
        assert(loop_labels_exprs(front.push(last)) == loop_labels_exprs(front)
            + loop_labels_expr(last));
        lemma_labels_concat(loop_labels_exprs(front), loop_labels_expr(last), n, n1, n2);
    }
}

/// Law (innermost-wins): for a try-block holding a nested try-block whose
/// body ends in an early-exit operator over some plain expression `x`, the
/// rewritten operator breaks to the nested block's fresh label `n + 1` —
/// never to the outer block's label `n` — whatever scope stack and counter
/// the fold starts from.
pub proof fn lemma_innermost_wins(st: Seq<int>, n: int, x: ExprS)
    requires
        untouched_expr(x, false),
    ensures
        ({
            let q = ExprS::Try { attrs: Seq::empty(), inner: Box::new(x) };
            let inner_block = ExprS::TryBlock {
                attrs: Seq::empty(),
                stmts: seq![StmtS::Expr { e: q }],
            };
            let outer_block = ExprS::TryBlock {
                attrs: Seq::empty(),
                stmts: seq![StmtS::Expr { e: inner_block }],
            };
            let rewritten_exit = ExprS::MatchTry {
                attrs: Seq::empty(),
                label: n + 1,
                scrutinee: Box::new(x),
            };
            let lowered_inner = ExprS::Lowered {
                attrs: Seq::empty(),
                label: n + 1,
                body: seq![StmtS::Expr { e: break_ok_s(n + 1, rewritten_exit) }],
            };
            let lowered_outer = ExprS::Lowered {
                attrs: Seq::empty(),
                label: n,
                body: seq![StmtS::Expr { e: break_ok_s(n, lowered_inner) }],
            };
            fold_expr_s(st, n, outer_block) == (lowered_outer, n + 2)
        }),
{
    let q = ExprS::Try { attrs: Seq::empty(), inner: Box::new(x) };
    let inner_block = ExprS::TryBlock { attrs: Seq::empty(), stmts: seq![StmtS::Expr { e: q }] };
    let outer_block = ExprS::TryBlock {
        attrs: Seq::empty(),
        stmts: seq![StmtS::Expr { e: inner_block }],
    };
    let st1 = st.push(n);
    let st2 = st1.push(n + 1);

    // the early-exit operator, folded two scopes deep
    lemma_fold_identity_expr(st2, n + 2, x);
    assert(st2.last() == n + 1);
    let rewritten_exit = ExprS::MatchTry {
        attrs: Seq::empty(),
        label: n + 1,
        scrutinee: Box::new(x),
    };
    assert(fold_expr_s(st2, n + 2, q) == (rewritten_exit, n + 2));

    // the inner block's statement list under the inner scope
    let inner_stmts = seq![StmtS::Expr { e: q }];
    assert(inner_stmts.drop_last() =~= Seq::<StmtS>::empty());
    assert(fold_stmts_s(st2, n + 2, Seq::<StmtS>::empty()) == (Seq::<StmtS>::empty(), n + 2));
    assert(inner_stmts.last() == StmtS::Expr { e: q });
    assert(fold_stmt_s(st2, n + 2, StmtS::Expr { e: q }) == (
        StmtS::Expr { e: rewritten_exit },
        n + 2,
    ));
    assert(fold_stmts_s(st2, n + 2, inner_stmts) == (
        Seq::<StmtS>::empty().push(StmtS::Expr { e: rewritten_exit }),
        n + 2,
    ));
    let inner_folded = seq![StmtS::Expr { e: rewritten_exit }];
    assert(Seq::<StmtS>::empty().push(StmtS::Expr { e: rewritten_exit }) =~= inner_folded);

    // the inner block's tail rewrite targets its own label n + 1
    assert(last_non_item_s(inner_folded) == Some(0int));
    assert(rewrite_tail_s(n + 1, inner_folded) =~= seq![
        StmtS::Expr { e: break_ok_s(n + 1, rewritten_exit) },
    ]);
    let lowered_inner = ExprS::Lowered {
        attrs: Seq::empty(),
        label: n + 1,
        body: seq![StmtS::Expr { e: break_ok_s(n + 1, rewritten_exit) }],
    };
    assert(fold_expr_s(st1, n + 1, inner_block) == lower_try_block_s(
        st1,
        n + 1,
        Seq::empty(),
        inner_stmts,
    ));
    assert(fold_stmts_s(st2, n + 2, inner_stmts).0 == inner_folded);
    assert(rewrite_tail_s(n + 1, fold_stmts_s(st2, n + 2, inner_stmts).0) == seq![
        StmtS::Expr { e: break_ok_s(n + 1, rewritten_exit) },
    ]);
    assert(fold_expr_s(st1, n + 1, inner_block) == (lowered_inner, n + 2));

    // the outer block's statement list under the outer scope
    let outer_stmts = seq![StmtS::Expr { e: inner_block }];
    assert(outer_stmts.drop_last() =~= Seq::<StmtS>::empty());
    assert(fold_stmts_s(st1, n + 1, Seq::<StmtS>::empty()) == (Seq::<StmtS>::empty(), n + 1));
    assert(outer_stmts.last() == StmtS::Expr { e: inner_block });
    assert(fold_stmt_s(st1, n + 1, StmtS::Expr { e: inner_block }) == (
        StmtS::Expr { e: lowered_inner },
        n + 2,
    ));
    assert(fold_stmts_s(st1, n + 1, outer_stmts) == (
        Seq::<StmtS>::empty().push(StmtS::Expr { e: lowered_inner }),
        n + 2,
    ));
    let outer_folded = seq![StmtS::Expr { e: lowered_inner }];
    assert(Seq::<StmtS>::empty().push(StmtS::Expr { e: lowered_inner }) =~= outer_folded);

    // the outer block's tail rewrite targets the outer label n
    assert(last_non_item_s(outer_folded) == Some(0int));
    assert(rewrite_tail_s(n, outer_folded) =~= seq![
        StmtS::Expr { e: break_ok_s(n, lowered_inner) },
    ]);
    assert(fold_expr_s(st, n, outer_block) == lower_try_block_s(
        st,
        n,
        Seq::empty(),
        outer_stmts,
    ));
}

} // verus!
