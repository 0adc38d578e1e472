//! Helpers for composite state slots.
//!
//! A composite entry holds a fixed number of state slots; after each slot
//! is resolved to an optional value, the entry's default-fill policy takes
//! the first resolved slot as the fallback for the unresolved ones.

use vstd::prelude::*;

verus! {

/// The value of a resolved slot, or the fallback where the slot did not
/// resolve.
pub open spec fn slot_or<T>(v: Option<T>, fallback: T) -> T {
    match v {
        Some(x) => x,
        None => fallback,
    }
}

/// The first resolved value among two slots, scanning left to right.
pub open spec fn first_of2<T>(v0: Option<T>, v1: Option<T>) -> T {
    match v0 {
        Some(x) => x,
        None => match v1 {
            Some(x) => x,
            None => arbitrary(),
        },
    }
}

/// The first resolved value among three slots, scanning left to right.
pub open spec fn first_of3<T>(v0: Option<T>, v1: Option<T>, v2: Option<T>) -> T {
    match v0 {
        Some(x) => x,
        None => first_of2(v1, v2),
    }
}

/// The first resolved value among four slots, scanning left to right.
pub open spec fn first_of4<T>(v0: Option<T>, v1: Option<T>, v2: Option<T>, v3: Option<T>) -> T {
    match v0 {
        Some(x) => x,
        None => first_of3(v1, v2, v3),
    }
}

} // verus!
