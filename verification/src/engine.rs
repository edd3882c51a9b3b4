//! The sequence engine as a state machine: what one pull does to the state, and
//! what it emits, as functions of the growth function and the state before it.

use crate::growth::follows_between;
use crate::order::{below, capped, reaches};
use vstd::prelude::*;

verus! {

/// What an engine holds besides its growth function.
pub struct EngineState<B> {
    /// The attempt whose value was emitted last; zero before the first pull.
    pub iteration: u64,
    /// The attempt after which the engine is exhausted, if it is bounded.
    pub max_iterations: Option<u64>,
    /// The value computed last.
    pub current_value: Option<B>,
    /// The floor, until the first value has been computed.
    pub min_value: Option<B>,
    /// The ceiling.
    pub max_value: Option<B>,
}

/// The bounds that a configuration holds.
pub struct Bounds<B> {
    /// How many values a sequence emits, if it ends at all.
    pub max_iterations: Option<u64>,
    /// The floor below which the opening values are passed over.
    pub min_value: Option<B>,
    /// The ceiling to which values are pinned.
    pub max_value: Option<B>,
}

/// The state of an engine that has not been pulled yet.
pub open spec fn fresh<B>(bounds: Bounds<B>) -> EngineState<B> {
    EngineState {
        iteration: 0,
        max_iterations: bounds.max_iterations,
        current_value: None,
        min_value: bounds.min_value,
        max_value: bounds.max_value,
    }
}

/// The engine is bounded and has used up its attempts.
pub open spec fn exhausted<B>(s: EngineState<B>) -> bool {
    match s.max_iterations {
        Some(mi) => s.iteration >= mi,
        None => false,
    }
}

/// The value computed last has reached the ceiling.
pub open spec fn saturated<B: PartialOrd>(s: EngineState<B>) -> bool {
    match (s.current_value, s.max_value) {
        (Some(cur), Some(max)) => reaches(cur, max),
        _ => false,
    }
}

/// The next pull calls the growth function.
pub open spec fn computing<B: PartialOrd>(s: EngineState<B>) -> bool {
    !exhausted(s) && !saturated(s)
}

/// The attempt that follows the one emitted last.
pub open spec fn following<B>(s: EngineState<B>) -> u64 {
    (s.iteration + 1) as u64
}

/// `j` is the first attempt from `start` on whose value is not below `min`.
pub open spec fn is_landing<B: PartialOrd>(g: spec_fn(u64) -> B, min: B, start: u64, j: u64) -> bool {
    &&& start <= j
    &&& !below(g(j), min)
    &&& forall|i: u64| start <= i < j ==> below(#[trigger] g(i), min)
}

/// Some attempt from `start` on has a value that is not below `min`.
pub open spec fn lands<B: PartialOrd>(g: spec_fn(u64) -> B, min: B, start: u64) -> bool {
    exists|j: u64| is_landing(g, min, start, j)
}

/// The first attempt from `start` on whose value is not below `min`.
pub open spec fn landing<B: PartialOrd>(g: spec_fn(u64) -> B, min: B, start: u64) -> u64 {
    choose|j: u64| is_landing(g, min, start, j)
}

/// The attempt whose value a computing pull emits: the following one, or with a
/// floor the first from there on whose value is not below the floor.
pub open spec fn target<B: PartialOrd>(g: spec_fn(u64) -> B, s: EngineState<B>) -> u64 {
    match s.min_value {
        Some(min) => landing(g, min, following(s)),
        None => following(s),
    }
}

/// The attempts that a computing pull passes over because of the floor.
pub open spec fn skipped<B: PartialOrd>(g: spec_fn(u64) -> B, s: EngineState<B>) -> int {
    target(g, s) - following(s)
}

/// The next pull overflows no counter, and its search for the floor comes to
/// an end.
pub open spec fn can_step<B: PartialOrd>(g: spec_fn(u64) -> B, s: EngineState<B>) -> bool {
    exhausted(s) || {
        &&& s.iteration < u64::MAX
        &&& saturated(s) || {
            &&& s.min_value matches Some(min) ==> lands(g, min, following(s))
            &&& s.max_iterations matches Some(mi) ==> mi + skipped(g, s) <= u64::MAX
        }
    }
}

/// What the next pull emits.
pub open spec fn emitted<B: PartialOrd>(g: spec_fn(u64) -> B, s: EngineState<B>) -> Option<B> {
    if exhausted(s) {
        None
    } else if saturated(s) {
        s.max_value
    } else {
        Some(capped(g(target(g, s)), s.max_value))
    }
}

/// The state after the next pull.
pub open spec fn next_state<B: PartialOrd>(g: spec_fn(u64) -> B, s: EngineState<B>) -> EngineState<B> {
    if exhausted(s) {
        s
    } else if saturated(s) {
        EngineState { iteration: following(s), ..s }
    } else {
        EngineState {
            iteration: target(g, s),
            max_iterations: match s.max_iterations {
                Some(mi) => Some((mi + skipped(g, s)) as u64),
                None => None,
            },
            current_value: Some(capped(g(target(g, s)), s.max_value)),
            min_value: None,
            max_value: s.max_value,
        }
    }
}

/// The next pull is possible under `g`, and the executable growth function `f`
/// follows `g` on every attempt that the pull looks at.
pub open spec fn may_pull<F: Fn(u64) -> B, B: PartialOrd>(
    f: &F,
    g: spec_fn(u64) -> B,
    s: EngineState<B>,
) -> bool {
    &&& can_step(g, s)
    &&& computing(s) ==> follows_between(f, g, following(s), target(g, s))
}

/// The engine stops after some attempt.
pub open spec fn bounded<B>(s: EngineState<B>) -> bool {
    s.max_iterations is Some
}

/// How many values a bounded engine has yet to emit.
pub open spec fn budget<B>(s: EngineState<B>) -> nat {
    match s.max_iterations {
        Some(mi) => if mi > s.iteration {
            (mi - s.iteration) as nat
        } else {
            0
        },
        None => 0,
    }
}

/// The state after `k` pulls.
pub open spec fn state_after<B: PartialOrd>(
    g: spec_fn(u64) -> B,
    s: EngineState<B>,
    k: nat,
) -> EngineState<B>
    decreases k,
{
    if k == 0 {
        s
    } else {
        next_state(g, state_after(g, s, (k - 1) as nat))
    }
}

/// What the pull after `k` earlier ones emits.
pub open spec fn emitted_at<B: PartialOrd>(
    g: spec_fn(u64) -> B,
    s: EngineState<B>,
    k: nat,
) -> Option<B> {
    emitted(g, state_after(g, s, k))
}

/// Each of the next `n` pulls is possible under `g`.
pub open spec fn can_run<B: PartialOrd>(g: spec_fn(u64) -> B, s: EngineState<B>, n: nat) -> bool {
    forall|k: nat| k < n ==> can_step(g, #[trigger] state_after(g, s, k))
}

/// Each of the next `n` pulls is possible under `g`, and `f` follows `g` on
/// every attempt that they look at.
pub open spec fn may_run<F: Fn(u64) -> B, B: PartialOrd>(
    f: &F,
    g: spec_fn(u64) -> B,
    s: EngineState<B>,
    n: nat,
) -> bool {
    forall|k: nat| k < n ==> may_pull(f, g, #[trigger] state_after(g, s, k))
}

/// The values that the next `n` pulls emit, where each of them emits one.
pub open spec fn produced<B: PartialOrd>(
    g: spec_fn(u64) -> B,
    s: EngineState<B>,
    n: nat,
) -> Seq<B> {
    Seq::new(n, |k: int| emitted_at(g, s, k as nat).unwrap())
}

/// No two attempts are the first one from `start` on whose value is not below
/// `min`.
pub proof fn lemma_landing_unique<B: PartialOrd>(g: spec_fn(u64) -> B, min: B, start: u64, j: u64)
    requires
        is_landing(g, min, start, j),
    ensures
        lands(g, min, start),
        landing(g, min, start) == j,
{
    let k = landing(g, min, start);
    assert(is_landing(g, min, start, k));
    if k < j {
        assert(below(g(k), min));
    }
    if j < k {
        assert(below(g(j), min));
    }
}

} // verus!
