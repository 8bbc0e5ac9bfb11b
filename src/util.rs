use vstd::prelude::*;

verus! {

/// Drops a value explicitly; used where a result is not needed.
pub fn discard<T>(_x: T) {
}

} // verus!
