//! The three comparisons that the engine makes between delay values, as
//! predicates over the ordering that a value type declares.

use core::cmp::Ordering;
use vstd::prelude::*;
use vstd::std_specs::cmp::PartialOrdSpec;

verus! {

/// The comparison operators of `B` agree with the ordering that `B` declares.
pub open spec fn ordered<B: PartialOrd>() -> bool {
    B::obeys_partial_cmp_spec()
}

/// `a < b`.
pub open spec fn below<B: PartialOrd>(a: B, b: B) -> bool {
    a.partial_cmp_spec(&b) == Some(Ordering::Less)
}

/// `a > b`.
pub open spec fn exceeds<B: PartialOrd>(a: B, b: B) -> bool {
    a.partial_cmp_spec(&b) == Some(Ordering::Greater)
}

/// `a >= b`.
pub open spec fn reaches<B: PartialOrd>(a: B, b: B) -> bool {
    a.partial_cmp_spec(&b) matches Some(Ordering::Greater | Ordering::Equal)
}

/// `v`, or the ceiling where there is one and `v` lies above it.
pub open spec fn capped<B: PartialOrd>(v: B, ceiling: Option<B>) -> B {
    match ceiling {
        Some(m) => if exceeds(v, m) {
            m
        } else {
            v
        },
        None => v,
    }
}

} // verus!
