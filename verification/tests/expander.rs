//! The try-scope transformer, driven over concrete model trees.

use try_blocks::ast::{copy_stmt, Expr, Stmt};
use try_blocks::expand::{expand, expand_block, last_non_item_index, rewrite_tail, TryBlocksExpander};

fn opaque(id: u64) -> Expr {
    Expr::Opaque { id, subs: vec![] }
}

fn break_ok(label: usize, value: Expr) -> Expr {
    Expr::BreakOk { label, value: Box::new(value) }
}

#[test]
fn tail_expression_is_wrapped_in_place() {
    let stmts = vec![Stmt::Expr { e: opaque(7) }];
    let lowered = expand_block(&stmts);
    let expected = Expr::Lowered {
        attrs: vec![],
        label: 0,
        body: vec![Stmt::Expr { e: break_ok(0, opaque(7)) }],
    };
    assert_eq!(lowered, expected);
}

#[test]
fn empty_block_gets_unit_tail() {
    let stmts: Vec<Stmt> = vec![];
    let lowered = expand_block(&stmts);
    let expected = Expr::Lowered {
        attrs: vec![],
        label: 0,
        body: vec![Stmt::Semi { e: break_ok(0, Expr::Unit) }],
    };
    assert_eq!(lowered, expected);
}

#[test]
fn block_ending_in_declaration_gets_unit_tail() {
    let stmts = vec![Stmt::Local { id: 4, init: None }];
    let lowered = expand_block(&stmts);
    let expected = Expr::Lowered {
        attrs: vec![],
        label: 0,
        body: vec![
            Stmt::Local { id: 4, init: None },
            Stmt::Semi { e: break_ok(0, Expr::Unit) },
        ],
    };
    assert_eq!(lowered, expected);
}

#[test]
fn trailing_items_are_skipped_by_the_tail_rewrite() {
    let stmts = vec![
        Stmt::Expr { e: opaque(1) },
        Stmt::Item { id: 9, body: vec![] },
    ];
    let lowered = expand_block(&stmts);
    let expected = Expr::Lowered {
        attrs: vec![],
        label: 0,
        body: vec![
            Stmt::Expr { e: break_ok(0, opaque(1)) },
            Stmt::Item { id: 9, body: vec![] },
        ],
    };
    assert_eq!(lowered, expected);
}

#[test]
fn rewrite_tail_wraps_last_non_item() {
    let body = vec![Stmt::Expr { e: Expr::Unit }];
    let out = rewrite_tail(5, body);
    assert_eq!(out, vec![Stmt::Expr { e: break_ok(5, Expr::Unit) }]);
}

#[test]
fn innermost_scope_wins() {
    // try { try { x? } } — the early exit resolves to the inner label 1.
    let inner = Expr::TryBlock {
        attrs: vec![],
        stmts: vec![Stmt::Expr {
            e: Expr::Try { attrs: vec![], inner: Box::new(opaque(3)) },
        }],
    };
    let lowered = expand_block(&vec![Stmt::Expr { e: inner }]);
    let rewritten_exit = Expr::MatchTry {
        attrs: vec![],
        label: 1,
        scrutinee: Box::new(opaque(3)),
    };
    let lowered_inner = Expr::Lowered {
        attrs: vec![],
        label: 1,
        body: vec![Stmt::Expr { e: break_ok(1, rewritten_exit) }],
    };
    let expected = Expr::Lowered {
        attrs: vec![],
        label: 0,
        body: vec![Stmt::Expr { e: break_ok(0, lowered_inner) }],
    };
    assert_eq!(lowered, expected);
}

#[test]
fn bare_early_exit_passes_through_unchanged() {
    // a function body with a `?` but no try-block is left as it stands
    let item = Stmt::Item {
        id: 1,
        body: vec![Stmt::Expr {
            e: Expr::Try { attrs: vec![], inner: Box::new(opaque(4)) },
        }],
    };
    let out = expand(&item);
    assert_eq!(out, item);
}

#[test]
fn inner_items_do_not_leak_scopes() {
    // a nested item inside a try-block keeps its own early-exit operators
    let nested_item = Stmt::Item {
        id: 5,
        body: vec![Stmt::Semi {
            e: Expr::Try { attrs: vec![], inner: Box::new(opaque(2)) },
        }],
    };
    let stmts = vec![
        Stmt::Semi { e: Expr::Try { attrs: vec![], inner: Box::new(opaque(1)) } },
        copy_stmt(&nested_item),
    ];
    let lowered = expand_block(&stmts);
    let expected = Expr::Lowered {
        attrs: vec![],
        label: 0,
        body: vec![
            Stmt::Semi {
                e: Expr::MatchTry { attrs: vec![], label: 0, scrutinee: Box::new(opaque(1)) },
            },
            nested_item,
            Stmt::Semi { e: break_ok(0, Expr::Unit) },
        ],
    };
    assert_eq!(lowered, expected);
}

#[test]
fn sibling_try_blocks_get_distinct_labels_at_equal_depth() {
    // two sequential try-blocks at the same nesting depth: a depth-derived
    // name would collide; the counter keeps them apart.
    let stmts = vec![
        Stmt::Semi { e: Expr::TryBlock { attrs: vec![], stmts: vec![] } },
        Stmt::Semi { e: Expr::TryBlock { attrs: vec![], stmts: vec![] } },
    ];
    let lowered = expand_block(&stmts);
    let body = match lowered {
        Expr::Lowered { label, body, .. } => {
            assert_eq!(label, 0);
            body
        }
        other => panic!("expected a lowered block, got {:?}", other),
    };
    let first = match &body[0] {
        Stmt::Semi { e: Expr::Lowered { label, .. } } => *label,
        other => panic!("expected a lowered sibling, got {:?}", other),
    };
    let second = match &body[1] {
        Stmt::Semi { e: Expr::Lowered { label, .. } } => *label,
        other => panic!("expected a lowered sibling, got {:?}", other),
    };
    assert_eq!(first, 1);
    assert_eq!(second, 2);
    assert_ne!(first, second);
}

#[test]
fn attributes_are_preserved() {
    let stmts = vec![Stmt::Expr {
        e: Expr::TryBlock { attrs: vec![77], stmts: vec![] },
    }];
    let lowered = expand_block(&stmts);
    match lowered {
        Expr::Lowered { body, .. } => match &body[0] {
            Stmt::Expr { e: Expr::BreakOk { value, .. } } => match value.as_ref() {
                Expr::Lowered { attrs, .. } => assert_eq!(attrs, &vec![77]),
                other => panic!("expected the lowered inner block, got {:?}", other),
            },
            other => panic!("expected the wrapped tail, got {:?}", other),
        },
        other => panic!("expected a lowered block, got {:?}", other),
    }
}

#[test]
fn scope_stack_hands_out_fresh_ids_and_restores() {
    let mut ex = TryBlocksExpander::new();
    assert_eq!(ex.current_scope(), None);
    let a = ex.open_scope();
    let b = ex.open_scope();
    assert_eq!(a, 0);
    assert_eq!(b, 1);
    assert_eq!(ex.current_scope(), Some(1));
    assert_eq!(ex.close_scope(), 1);
    assert_eq!(ex.current_scope(), Some(0));
    // a scope opened after a sibling closed still gets a fresh id
    let c = ex.open_scope();
    assert_eq!(c, 2);
    assert_eq!(ex.close_scope(), 2);
    assert_eq!(ex.close_scope(), 0);
    assert_eq!(ex.current_scope(), None);
}

#[test]
fn counter_advances_by_the_number_of_try_blocks() {
    let mut ex = TryBlocksExpander::new();
    let e = Expr::TryBlock {
        attrs: vec![],
        stmts: vec![Stmt::Semi {
            e: Expr::TryBlock { attrs: vec![], stmts: vec![] },
        }],
    };
    let _ = ex.fold_expr(&e);
    assert_eq!(ex.next_scope_id, 2);
    assert_eq!(ex.current_scope(), None);
}

#[test]
fn expand_item_rewrites_the_annotated_body_only() {
    // an annotated function whose body holds one try-block
    let item = Stmt::Item {
        id: 3,
        body: vec![Stmt::Semi {
            e: Expr::TryBlock { attrs: vec![], stmts: vec![Stmt::Expr { e: opaque(8) }] },
        }],
    };
    let out = expand(&item);
    let expected = Stmt::Item {
        id: 3,
        body: vec![Stmt::Semi {
            e: Expr::Lowered {
                attrs: vec![],
                label: 0,
                body: vec![Stmt::Expr { e: break_ok(0, opaque(8)) }],
            },
        }],
    };
    assert_eq!(out, expected);
}

#[test]
fn last_non_item_index_skips_trailing_items() {
    assert_eq!(last_non_item_index(&vec![false, true, true]), Some(0));
    assert_eq!(last_non_item_index(&vec![false, false]), Some(1));
    assert_eq!(last_non_item_index(&vec![true, true]), None);
    assert_eq!(last_non_item_index(&vec![]), None);
}
