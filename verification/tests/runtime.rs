//! The short-circuit runtime: exact decompositions, rebuilds, and the
//! round-trips of every implementation, the poll-wrapped ones in particular.

use try_blocks::_rt::{from_error, from_ok, into_result, NoneError, Poll, Try};

#[test]
fn result_into_result_is_identity() {
    let ok: Result<i32, String> = Ok(5);
    assert_eq!(into_result(ok), Ok(5));
    let err: Result<i32, String> = Err(String::from("boom"));
    assert_eq!(into_result(err), Err(String::from("boom")));
}

#[test]
fn result_from_ok_and_from_error() {
    let r: Result<i32, String> = from_ok(7);
    assert_eq!(r, Ok(7));
    let r: Result<i32, String> = from_error(String::from("e"));
    assert_eq!(r, Err(String::from("e")));
}

#[test]
fn option_decomposes_with_unit_failure() {
    let some: Option<u8> = Some(3);
    assert!(matches!(into_result(some), Ok(3)));
    let none: Option<u8> = None;
    let r: Result<u8, NoneError> = into_result(none);
    assert!(matches!(r, Err(_)));
}

#[test]
fn option_from_ok_wraps_and_from_error_discards() {
    let o: Option<u8> = from_ok(9);
    assert_eq!(o, Some(9));
    let none: Option<u8> = None;
    let e = match into_result(none) {
        Err(e) => e,
        Ok(_) => panic!("absence must decompose to a failure"),
    };
    let o: Option<u8> = from_error(e);
    assert_eq!(o, None);
}

#[test]
fn option_roundtrip_is_exact() {
    for o in [Some(11u8), None] {
        let rebuilt: Option<u8> = match into_result(o) {
            Ok(v) => from_ok(v),
            Err(e) => from_error(e),
        };
        assert_eq!(rebuilt, o);
    }
}

#[test]
fn poll_result_pending_is_never_a_failure() {
    let p: Poll<Result<i32, String>> = Poll::Pending;
    let r = into_result(p);
    assert_eq!(r, Ok(Poll::Pending));
    let rebuilt: Poll<Result<i32, String>> = from_ok(Poll::Pending);
    assert_eq!(rebuilt, Poll::Pending);
}

#[test]
fn poll_result_ready_failure_extracts_exact_payload() {
    let p: Poll<Result<i32, String>> = Poll::Ready(Err(String::from("E")));
    let r = into_result(p);
    assert_eq!(r, Err(String::from("E")));
    let rebuilt: Poll<Result<i32, String>> = from_error(String::from("E"));
    assert_eq!(rebuilt, Poll::Ready(Err(String::from("E"))));
}

#[test]
fn poll_result_ready_success_extracts_exact_payload() {
    let p: Poll<Result<i32, String>> = Poll::Ready(Ok(42));
    let r = into_result(p);
    assert_eq!(r, Ok(Poll::Ready(42)));
    let rebuilt: Poll<Result<i32, String>> = from_ok(Poll::Ready(42));
    assert_eq!(rebuilt, Poll::Ready(Ok(42)));
}

#[test]
fn poll_result_roundtrip_is_exact() {
    let inputs: [Poll<Result<i32, String>>; 3] = [
        Poll::Pending,
        Poll::Ready(Ok(1)),
        Poll::Ready(Err(String::from("E"))),
    ];
    for p in inputs {
        let rebuilt: Poll<Result<i32, String>> = match into_result(p.clone()) {
            Ok(v) => from_ok(v),
            Err(e) => from_error(e),
        };
        assert_eq!(rebuilt, p);
    }
}

#[test]
fn poll_option_result_three_way_dispatch() {
    let pending: Poll<Option<Result<i32, String>>> = Poll::Pending;
    assert_eq!(into_result(pending), Ok(Poll::Pending));

    let exhausted: Poll<Option<Result<i32, String>>> = Poll::Ready(None);
    assert_eq!(into_result(exhausted), Ok(Poll::Ready(None)));

    let ok: Poll<Option<Result<i32, String>>> = Poll::Ready(Some(Ok(7)));
    assert_eq!(into_result(ok), Ok(Poll::Ready(Some(7))));

    let err: Poll<Option<Result<i32, String>>> = Poll::Ready(Some(Err(String::from("E"))));
    assert_eq!(into_result(err), Err(String::from("E")));
}

#[test]
fn poll_option_result_roundtrip_is_exact() {
    let inputs: [Poll<Option<Result<i32, String>>>; 4] = [
        Poll::Pending,
        Poll::Ready(None),
        Poll::Ready(Some(Ok(1))),
        Poll::Ready(Some(Err(String::from("E")))),
    ];
    for p in inputs {
        let rebuilt: Poll<Option<Result<i32, String>>> = match into_result(p.clone()) {
            Ok(v) => from_ok(v),
            Err(e) => from_error(e),
        };
        assert_eq!(rebuilt, p);
    }
}

#[test]
fn trait_methods_match_free_functions() {
    let r: Result<i32, String> = Try::from_ok(3);
    assert_eq!(r, Ok(3));
    let r: Result<i32, String> = Try::from_error(String::from("x"));
    assert_eq!(r.into_result(), Err(String::from("x")));
}
