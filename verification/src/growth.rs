//! What a growth function is to the engine: a pure mapping from the number of
//! an attempt, counted from one, to a delay. The engine's behaviour is stated
//! over a mathematical function that the executable one follows.

use vstd::prelude::*;

verus! {

/// `f` may be called on attempt `i`, and whatever it returns there is what `g`
/// gives for that attempt.
pub open spec fn follows<F: Fn(u64) -> B, B>(f: &F, g: spec_fn(u64) -> B, i: u64) -> bool {
    &&& call_requires(f, (i,))
    &&& forall|b: B| #[trigger] call_ensures(f, (i,), b) ==> b == g(i)
}

/// `f` follows `g` on every attempt from `lo` to `hi`, both included.
pub open spec fn follows_between<F: Fn(u64) -> B, B>(
    f: &F,
    g: spec_fn(u64) -> B,
    lo: u64,
    hi: u64,
) -> bool {
    forall|i: u64| lo <= i <= hi ==> #[trigger] follows(f, g, i)
}

} // verus!
