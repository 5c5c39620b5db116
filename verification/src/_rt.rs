//! The short-circuit runtime that lowered `try` blocks call into.
//!
//! A `Try` container splits into a success payload and a failure payload and
//! can be rebuilt from either. The set of containers is closed: the trait
//! requires the crate-private `Sealed` marker, so generated code may reason
//! over exactly these implementations and no others.

use crate::sealed::Sealed;
use vstd::prelude::*;

verus! {

/// Outcome of polling an asynchronous computation: either a finished value
/// or a marker that no value is available yet.
///
/// This is the crate's model of the host's poll type, so that the runtime's
/// three-way dispatch over it (pending / ready-success / ready-failure) can
/// be stated and checked; a front end converts the host's values into it
/// one-to-one.
#[derive(Debug, Clone, PartialEq, Eq)]
pub enum Poll<T> {
    Ready(T),
    Pending,
}

/// A container with an obvious success/failure split.
///
/// `into_result` decomposes the container into the canonical two-variant
/// outcome; `from_ok` and `from_error` rebuild the container from a payload.
/// Each operation is total and pure, and each implementation pins its result
/// down exactly through the three spec functions.
pub trait Try: Sealed + Sized {
    type Ok_;

    type Error;

    /// What `into_result` returns.
    spec fn spec_into_result(self) -> Result<Self::Ok_, Self::Error>;

    /// What `from_ok` returns.
    spec fn spec_from_ok(v: Self::Ok_) -> Self;

    /// What `from_error` returns.
    spec fn spec_from_error(e: Self::Error) -> Self;

    fn into_result(self) -> (r: Result<Self::Ok_, Self::Error>)
        ensures
            r == self.spec_into_result(),
    ;

    fn from_ok(v: Self::Ok_) -> (r: Self)
        ensures
            r == Self::spec_from_ok(v),
    ;

    fn from_error(e: Self::Error) -> (r: Self)
        ensures
            r == Self::spec_from_error(e),
    ;

    /// Law: decomposing a container and rebuilding from whichever payload
    /// came out yields the original container again, exactly.
    proof fn lemma_into_result_roundtrip(self)
        ensures
            (match self.spec_into_result() {
                Ok(v) => Self::spec_from_ok(v),
                Err(e) => Self::spec_from_error(e),
            }) == self,
    ;

    /// Law: a container rebuilt from a success payload decomposes to exactly
    /// that success payload.
    proof fn lemma_from_ok_into_result(v: Self::Ok_)
        ensures
            Self::spec_from_ok(v).spec_into_result() == Ok::<Self::Ok_, Self::Error>(v),
    ;

    /// Law: a container rebuilt from a failure payload decomposes to a
    /// failure; for containers whose native failure carries a payload it is
    /// exactly the payload given.
    proof fn lemma_from_error_into_result(e: Self::Error)
        ensures
            Self::spec_from_error(e).spec_into_result() == Err::<Self::Ok_, Self::Error>(e),
    ;
}

/// Decompose a short-circuitable container into the canonical outcome.
pub fn into_result<T: Try>(t: T) -> (r: Result<T::Ok_, T::Error>)
    ensures
        r == t.spec_into_result(),
{
    t.into_result()
}

/// Rebuild a container from a success payload.
pub fn from_ok<T: Try>(ok: T::Ok_) -> (r: T)
    ensures
        r == T::spec_from_ok(ok),
{
    T::from_ok(ok)
}

/// Rebuild a container from a failure payload.
pub fn from_error<T: Try>(err: T::Error) -> (r: T)
    ensures
        r == T::spec_from_error(err),
{
    T::from_error(err)
}

impl<T, E> Try for Result<T, E> {
    type Ok_ = T;

    type Error = E;

    open spec fn spec_into_result(self) -> Result<T, E> {
        self
    }

    open spec fn spec_from_ok(v: T) -> Self {
        Ok(v)
    }

    open spec fn spec_from_error(e: E) -> Self {
        Err(e)
    }

    fn into_result(self) -> (r: Result<T, E>) {
        self
    }

    fn from_ok(v: T) -> (r: Self) {
        Ok(v)
    }

    fn from_error(e: E) -> (r: Self) {
        Err(e)
    }

    proof fn lemma_into_result_roundtrip(self) {
    }

    proof fn lemma_from_ok_into_result(v: T) {
    }

    proof fn lemma_from_error_into_result(e: E) {
    }
}

/// The synthesized failure payload of an optional-value container: carries
/// no information, since such a container's failure state is bare absence.
#[derive(Debug)]
pub struct NoneError(());

impl<T> Try for Option<T> {
    type Ok_ = T;

    type Error = NoneError;

    closed spec fn spec_into_result(self) -> Result<T, NoneError> {
        match self {
            Some(v) => Ok(v),
            None => Err(NoneError(())),
        }
    }

    open spec fn spec_from_ok(v: T) -> Self {
        Some(v)
    }

    open spec fn spec_from_error(e: NoneError) -> Self {
        None
    }

    fn into_result(self) -> (r: Result<T, NoneError>) {
        match self {
            Some(v) => Ok(v),
            None => Err(NoneError(())),
        }
    }

    fn from_ok(v: T) -> (r: Self) {
        Some(v)
    }

    fn from_error(e: NoneError) -> (r: Self) {
        None
    }

    proof fn lemma_into_result_roundtrip(self) {
    }

    proof fn lemma_from_ok_into_result(v: T) {
    }

    proof fn lemma_from_error_into_result(e: NoneError) {
        assert(e == NoneError(()));
    }
}

/// All values of `NoneError` are one and the same payload: it carries no
/// information.
pub proof fn lemma_none_error_unique(a: NoneError, b: NoneError)
    ensures
        a == b,
{
}

/// What the optional-value container decomposes to: a present value is the
/// success payload, absence is the synthesized unit failure.
pub proof fn lemma_option_into_result<T>(o: Option<T>)
    ensures
        o matches Some(v) ==> o.spec_into_result() == Ok::<T, NoneError>(v),
        o is None ==> o.spec_into_result() is Err,
{
}

impl<T, E> Try for Poll<Result<T, E>> {
    type Ok_ = Poll<T>;

    type Error = E;

    open spec fn spec_into_result(self) -> Result<Poll<T>, E> {
        match self {
            Poll::Ready(Ok(x)) => Ok(Poll::Ready(x)),
            Poll::Ready(Err(e)) => Err(e),
            Poll::Pending => Ok(Poll::Pending),
        }
    }

    open spec fn spec_from_ok(v: Poll<T>) -> Self {
        match v {
            Poll::Ready(x) => Poll::Ready(Ok(x)),
            Poll::Pending => Poll::Pending,
        }
    }

    open spec fn spec_from_error(e: E) -> Self {
        Poll::Ready(Err(e))
    }

    fn into_result(self) -> (r: Result<Poll<T>, E>) {
        match self {
            Poll::Ready(Ok(x)) => Ok(Poll::Ready(x)),
            Poll::Ready(Err(e)) => Err(e),
            Poll::Pending => Ok(Poll::Pending),
        }
    }

    fn from_ok(v: Poll<T>) -> (r: Self) {
        match v {
            Poll::Ready(x) => Poll::Ready(Ok(x)),
            Poll::Pending => Poll::Pending,
        }
    }

    fn from_error(e: E) -> (r: Self) {
        Poll::Ready(Err(e))
    }

    proof fn lemma_into_result_roundtrip(self) {
    }

    proof fn lemma_from_ok_into_result(v: Poll<T>) {
    }

    proof fn lemma_from_error_into_result(e: E) {
    }
}

impl<T, E> Try for Poll<Option<Result<T, E>>> {
    type Ok_ = Poll<Option<T>>;

    type Error = E;

    open spec fn spec_into_result(self) -> Result<Poll<Option<T>>, E> {
        match self {
            Poll::Ready(Some(Ok(x))) => Ok(Poll::Ready(Some(x))),
            Poll::Ready(Some(Err(e))) => Err(e),
            Poll::Ready(None) => Ok(Poll::Ready(None)),
            Poll::Pending => Ok(Poll::Pending),
        }
    }

    open spec fn spec_from_ok(v: Poll<Option<T>>) -> Self {
        match v {
            Poll::Ready(Some(x)) => Poll::Ready(Some(Ok(x))),
            Poll::Ready(None) => Poll::Ready(None),
            Poll::Pending => Poll::Pending,
        }
    }

    open spec fn spec_from_error(e: E) -> Self {
        Poll::Ready(Some(Err(e)))
    }

    fn into_result(self) -> (r: Result<Poll<Option<T>>, E>) {
        match self {
            Poll::Ready(Some(Ok(x))) => Ok(Poll::Ready(Some(x))),
            Poll::Ready(Some(Err(e))) => Err(e),
            Poll::Ready(None) => Ok(Poll::Ready(None)),
            Poll::Pending => Ok(Poll::Pending),
        }
    }

    fn from_ok(v: Poll<Option<T>>) -> (r: Self) {
        match v {
            Poll::Ready(Some(x)) => Poll::Ready(Some(Ok(x))),
            Poll::Ready(None) => Poll::Ready(None),
            Poll::Pending => Poll::Pending,
        }
    }

    fn from_error(e: E) -> (r: Self) {
        Poll::Ready(Some(Err(e)))
    }

    proof fn lemma_into_result_roundtrip(self) {
    }

    proof fn lemma_from_ok_into_result(v: Poll<Option<T>>) {
    }

    proof fn lemma_from_error_into_result(e: E) {
    }
}

} // verus!
