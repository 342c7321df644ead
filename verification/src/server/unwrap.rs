//! Taking the value out of a result that cannot have failed.

use vstd::prelude::*;

verus! {

/// The value of a result that is known to hold one. `message` says what was
/// being done, for the reader of the call.
pub fn unwrap<T, E>(result: Result<T, E>, message: &str) -> (value: T)
    requires
        result is Ok,
    ensures
        result == Ok::<T, E>(value),
{
    match result {
        Ok(value) => value,
        Err(_) => vstd::pervasive::unreached(),
    }
}

} // verus!
