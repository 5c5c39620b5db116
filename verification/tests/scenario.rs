//! End to end: the transform of a two-step fallible body, and the lowered
//! shape executed against the runtime.

use try_blocks::_rt::{from_error, from_ok, into_result};
use try_blocks::ast::{Expr, Stmt};
use try_blocks::expand::expand_block;

fn op_a() -> Result<i32, String> {
    Ok(1)
}

fn op_a_failing() -> Result<i32, String> {
    Err(String::from("E"))
}

fn op_b(x: i32) -> Result<i32, String> {
    assert_eq!(x, 1);
    Ok(42)
}

fn op_b_must_not_run(_x: i32) -> Result<i32, String> {
    unreachable!("the second step must never run once the first short-circuited");
}

#[test]
fn two_step_body_transforms_to_one_labelled_loop() {
    // try { let x = op_a()?; let y = op_b(x)?; y }
    let q = |id: u64| Expr::Try { attrs: vec![], inner: Box::new(Expr::Opaque { id, subs: vec![] }) };
    let stmts = vec![
        Stmt::Local { id: 1, init: Some(q(10)) },
        Stmt::Local { id: 2, init: Some(q(11)) },
        Stmt::Expr { e: Expr::Opaque { id: 12, subs: vec![] } },
    ];
    let lowered = expand_block(&stmts);
    let rewritten = |id: u64| Expr::MatchTry {
        attrs: vec![],
        label: 0,
        scrutinee: Box::new(Expr::Opaque { id, subs: vec![] }),
    };
    let expected = Expr::Lowered {
        attrs: vec![],
        label: 0,
        body: vec![
            Stmt::Local { id: 1, init: Some(rewritten(10)) },
            Stmt::Local { id: 2, init: Some(rewritten(11)) },
            Stmt::Expr {
                e: Expr::BreakOk {
                    label: 0,
                    value: Box::new(Expr::Opaque { id: 12, subs: vec![] }),
                },
            },
        ],
    };
    assert_eq!(lowered, expected);
}

#[test]
fn executed_scenario_succeeds_with_42() {
    // the lowered shape of: try { let x = op_a()?; let y = op_b(x)?; y }
    let result: Result<i32, String> = 'scope: loop {
        let x = match into_result(op_a()) {
            Ok(val) => val,
            Err(err) => break 'scope from_error(From::from(err)),
        };
        let y = match into_result(op_b(x)) {
            Ok(val) => val,
            Err(err) => break 'scope from_error(From::from(err)),
        };
        break 'scope from_ok(y);
    };
    assert_eq!(result, Ok(42));
}

#[test]
fn executed_scenario_short_circuits_with_the_failure() {
    let result: Result<i32, String> = 'scope: loop {
        let x = match into_result(op_a_failing()) {
            Ok(val) => val,
            Err(err) => break 'scope from_error(From::from(err)),
        };
        let y = match into_result(op_b_must_not_run(x)) {
            Ok(val) => val,
            Err(err) => break 'scope from_error(From::from(err)),
        };
        break 'scope from_ok(y);
    };
    assert_eq!(result, Err(String::from("E")));
}

#[test]
fn executed_unit_block_yields_ok_unit() {
    // the lowered shape of: try { op_a()?; }
    let result: Result<(), String> = 'scope: loop {
        let _ = match into_result(op_a()) {
            Ok(val) => val,
            Err(err) => break 'scope from_error(From::from(err)),
        };
        break 'scope from_ok(());
    };
    assert_eq!(result, Ok(()));
}
