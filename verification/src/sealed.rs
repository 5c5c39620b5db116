//! The marker that closes the set of short-circuitable containers.
//!
//! The trait is public in name only: this module is private, so no crate
//! downstream can implement `Sealed`, and therefore none can implement the
//! runtime's `Try` trait for a type of its own.

use crate::_rt::Poll;
use vstd::prelude::*;

verus! {

pub trait Sealed {

}

impl<T, E> Sealed for Result<T, E> {

}

impl<T> Sealed for Option<T> {

}

impl<T, E> Sealed for Poll<Result<T, E>> {

}

impl<T, E> Sealed for Poll<Option<Result<T, E>>> {

}

} // verus!
