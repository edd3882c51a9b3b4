//! What holds of every backoff sequence.

use crate::engine::{
    bounded, budget, can_run, can_step, computing, emitted, emitted_at, exhausted, following,
    fresh, is_landing, landing, lands, may_pull, may_run, next_state, saturated, skipped,
    state_after, target, Bounds, EngineState,
};
use crate::growth::{follows, follows_between};
use crate::order::{below, capped, exceeds};
use crate::sequence::{BackoffSequence, BackoffSequenceIterator};
use vstd::prelude::*;

verus! {

/// A pull from a bounded engine that is not exhausted emits a value and uses up
/// one unit of the budget, however many attempts it passes over.
pub proof fn lemma_pull_spends_one<B: PartialOrd>(g: spec_fn(u64) -> B, s: EngineState<B>)
    requires
        bounded(s),
        !exhausted(s),
        can_step(g, s),
    ensures
        emitted(g, s) is Some,
        bounded(next_state(g, s)),
        budget(next_state(g, s)) == budget(s) - 1,
{
    if !saturated(s) {
        if let Some(min) = s.min_value {
            assert(is_landing(g, min, following(s), landing(g, min, following(s))));
        }
        assert(target(g, s) >= following(s));
    }
}

/// An exhausted engine stays as it is and emits nothing, however often it is
/// pulled.
pub proof fn lemma_exhausted_stays<B: PartialOrd>(g: spec_fn(u64) -> B, s: EngineState<B>, k: nat)
    requires
        exhausted(s),
    ensures
        state_after(g, s, k) == s,
        emitted_at(g, s, k) is None,
    decreases k,
{
    if k > 0 {
        lemma_exhausted_stays(g, s, (k - 1) as nat);
    }
}

/// After `k` pulls, of which the budget allows every one, a bounded engine has
/// `k` less to emit.
pub proof fn lemma_budget_after<B: PartialOrd>(g: spec_fn(u64) -> B, s: EngineState<B>, k: nat)
    requires
        bounded(s),
        k <= budget(s),
        can_run(g, s, k),
    ensures
        bounded(state_after(g, s, k)),
        budget(state_after(g, s, k)) == budget(s) - k,
    decreases k,
{
    if k > 0 {
        let j = (k - 1) as nat;
        lemma_budget_after(g, s, j);
        lemma_pull_spends_one(g, state_after(g, s, j));
    }
}

/// A bounded engine emits a value at each of as many pulls as its budget says,
/// and nothing at any later pull.
pub proof fn lemma_yields_exactly_budget<B: PartialOrd>(
    g: spec_fn(u64) -> B,
    s: EngineState<B>,
    k: nat,
)
    requires
        bounded(s),
        can_run(g, s, budget(s)),
    ensures
        k < budget(s) ==> emitted_at(g, s, k) is Some,
        k >= budget(s) ==> emitted_at(g, s, k) is None,
{
    let n = budget(s);
    if k < n {
        lemma_budget_after(g, s, k);
        lemma_pull_spends_one(g, state_after(g, s, k));
    } else {
        lemma_budget_after(g, s, n);
        let end = state_after(g, s, n);
        lemma_exhausted_stays(g, end, (k - n) as nat);
        lemma_state_after_adds(g, s, n, (k - n) as nat);
    }
}

/// Pulling `a` times and then `b` times is pulling `a + b` times.
pub proof fn lemma_state_after_adds<B: PartialOrd>(
    g: spec_fn(u64) -> B,
    s: EngineState<B>,
    a: nat,
    b: nat,
)
    ensures
        state_after(g, state_after(g, s, a), b) == state_after(g, s, a + b),
    decreases b,
{
    if b > 0 {
        lemma_state_after_adds(g, s, a, (b - 1) as nat);
    }
}

/// A sequence whose configuration sets the number of values to `n` emits
/// exactly `n` values: one at each of the first `n` pulls, none after them.
pub proof fn lemma_bounded_sequence_has_n_values<B: PartialOrd>(
    g: spec_fn(u64) -> B,
    bounds: Bounds<B>,
    n: u64,
    k: nat,
)
    requires
        bounds.max_iterations == Some(n),
        can_run(g, fresh(bounds), n as nat),
    ensures
        k < n ==> emitted_at(g, fresh(bounds), k) is Some,
        k >= n ==> emitted_at(g, fresh(bounds), k) is None,
{
    lemma_yields_exactly_budget(g, fresh(bounds), k);
}

/// Two passes that one configuration starts are in the same state and call the
/// same growth function, so that each emits at every pull what the other emits
/// there, whatever has been pulled from the other in between.
pub proof fn lemma_passes_agree<'a, F, B>(
    config: BackoffSequence<'a, F, B>,
    first: BackoffSequenceIterator<'a, F, B>,
    second: BackoffSequenceIterator<'a, F, B>,
    g: spec_fn(u64) -> B,
    k: nat,
) where F: Fn(u64) -> B, B: PartialOrd + Copy + core::fmt::Debug
    requires
        first.growth() == config.growth(),
        first@ == fresh(config@),
        second.growth() == config.growth(),
        second@ == fresh(config@),
    ensures
        first.growth() == second.growth(),
        state_after(g, first@, k) == state_after(g, second@, k),
        emitted_at(g, first@, k) == emitted_at(g, second@, k),
{
}

/// Where the growth function may not be called on the following attempt, a
/// pull that would compute a value is not possible: an engine without bounds
/// comes to a stop where its growth function leaves the range of the numbers.
pub proof fn lemma_no_pull_beyond_growth<F: Fn(u64) -> B, B: PartialOrd>(
    f: &F,
    g: spec_fn(u64) -> B,
    s: EngineState<B>,
)
    requires
        computing(s),
        !call_requires(f, (following(s),)),
    ensures
        !may_pull(f, g, s),
{
    if may_pull(f, g, s) {
        if let Some(min) = s.min_value {
            assert(is_landing(g, min, following(s), landing(g, min, following(s))));
        }
        assert(follows(f, g, following(s)));
    }
}

/// An engine whose last value has reached the ceiling emits the ceiling and
/// stays as it is but for the count of its attempts.
pub proof fn lemma_saturated_pull<B: PartialOrd>(g: spec_fn(u64) -> B, s: EngineState<B>)
    requires
        saturated(s),
        !exhausted(s),
    ensures
        emitted(g, s) == s.max_value,
        emitted(g, s) is Some,
        next_state(g, s) == (EngineState { iteration: following(s), ..s }),
        saturated(next_state(g, s)),
{
}

/// Once the last value has reached the ceiling, every later pull emits the
/// ceiling or, after the last attempt, nothing.
pub proof fn lemma_pinned_for_good<B: PartialOrd>(g: spec_fn(u64) -> B, s: EngineState<B>, k: nat)
    requires
        saturated(s),
    ensures
        saturated(state_after(g, s, k)),
        state_after(g, s, k).max_value == s.max_value,
        emitted_at(g, s, k) is Some ==> emitted_at(g, s, k) == s.max_value,
    decreases k,
{
    if k > 0 {
        lemma_pinned_for_good(g, s, (k - 1) as nat);
    }
}

/// No pull emits a value above the ceiling, where the ceiling is not above
/// itself.
pub proof fn lemma_emitted_within_ceiling<B: PartialOrd>(g: spec_fn(u64) -> B, s: EngineState<B>)
    requires
        s.max_value matches Some(max) && !exceeds(max, max),
    ensures
        emitted(g, s) matches Some(v) ==> !exceeds(v, s.max_value.unwrap()),
{
}

/// The first value that an engine with a floor computes is the value of an
/// attempt that is not below the floor, pinned to the ceiling where it lies
/// above that.
pub proof fn lemma_floor_is_met<B: PartialOrd>(g: spec_fn(u64) -> B, s: EngineState<B>)
    requires
        computing(s),
        can_step(g, s),
        s.min_value is Some,
    ensures
        !below(g(target(g, s)), s.min_value.unwrap()),
        target(g, s) >= following(s),
        emitted(g, s) == Some(capped(g(target(g, s)), s.max_value)),
{
    let min = s.min_value.unwrap();
    assert(is_landing(g, min, following(s), landing(g, min, following(s))));
}

/// With a floor above the ceiling, every value that the engine emits is the
/// ceiling: the first computed value is not below the floor, so it lies above
/// the ceiling and is pinned to it, and the engine is saturated from then on.
pub proof fn lemma_floor_above_ceiling_pins(g: spec_fn(u64) -> u64, s: EngineState<u64>, k: nat)
    requires
        s.current_value is None,
        s.min_value matches Some(min) && s.max_value matches Some(max) && min > max,
        can_step(g, s),
    ensures
        emitted_at(g, s, k) is Some ==> emitted_at(g, s, k) == s.max_value,
{
    if exhausted(s) {
        lemma_exhausted_stays(g, s, k);
    } else if k == 0 {
        lemma_floor_is_met(g, s);
    } else {
        lemma_floor_is_met(g, s);
        let t = next_state(g, s);
        assert(saturated(t));
        lemma_pinned_for_good(g, t, (k - 1) as nat);
        lemma_state_after_adds(g, s, 1, (k - 1) as nat);
        assert(state_after(g, s, 1) == t) by {
            assert(state_after(g, s, 0) == s);
        }
    }
}

/// The floor is used up by the first pull that computes a value: from a state
/// without a floor no pull brings one back, and after the first pull of an
/// engine that has not run out there is none.
pub proof fn lemma_floor_applies_once<B: PartialOrd>(g: spec_fn(u64) -> B, s: EngineState<B>, k: nat)
    requires
        s.min_value is None || (s.current_value is None && !exhausted(s) && k >= 1),
    ensures
        state_after(g, s, k).min_value is None,
    decreases k,
{
    if k > 1 {
        lemma_floor_applies_once(g, s, (k - 1) as nat);
    } else if k == 1 {
        assert(state_after(g, s, 0) == s);
    }
}

/// The attempt that the first of the next pulls looks at last.
pub open spec fn first_stop<B: PartialOrd>(g: spec_fn(u64) -> B, s: EngineState<B>) -> u64 {
    if computing(s) {
        target(g, s)
    } else {
        following(s)
    }
}

/// A condition under which the next `n` pulls are possible, in terms of the
/// engine's state now: the first pull finds its value, no counter overflows,
/// and `f` follows `g` from the following attempt to attempt `pin`, which is
/// either the last attempt that `n` pulls can get to or one whose value
/// reaches the ceiling, so that no pull after it calls `f`.
pub open spec fn run_ready<F: Fn(u64) -> B, B: PartialOrd>(
    f: &F,
    g: spec_fn(u64) -> B,
    s: EngineState<B>,
    n: nat,
    pin: u64,
) -> bool {
    n == 0 || exhausted(s) || {
        &&& s.iteration < u64::MAX
        &&& !bounded(s) ==> first_stop(g, s) + n - 1 <= u64::MAX
        &&& computing(s) ==> {
            &&& s.min_value matches Some(min) ==> lands(g, min, following(s))
            &&& s.max_iterations matches Some(mi) ==> mi + skipped(g, s) <= u64::MAX
            &&& target(g, s) <= pin <= target(g, s) + n - 1
            &&& follows_between(f, g, following(s), pin)
            &&& pin < target(g, s) + n - 1 ==> saturated(
                EngineState { current_value: Some(capped(g(pin), s.max_value)), ..s },
            )
        }
    }
}

/// What holds of the state after `k` of the `n` pulls for which an engine is
/// ready.
proof fn lemma_ready_state<F: Fn(u64) -> B, B: PartialOrd>(
    f: &F,
    g: spec_fn(u64) -> B,
    s: EngineState<B>,
    n: nat,
    pin: u64,
    k: nat,
)
    requires
        run_ready(f, g, s, n, pin),
        !exhausted(s),
        1 <= k <= n,
    ensures
        bounded(state_after(g, s, k)) == bounded(s),
        state_after(g, s, k).max_value == s.max_value,
        state_after(g, s, k).iteration <= first_stop(g, s) + k - 1,
        forall|j: nat| j < k ==> may_pull(f, g, #[trigger] state_after(g, s, j)),
        computing(state_after(g, s, k)) ==> {
            &&& computing(s)
            &&& state_after(g, s, k).min_value is None
            &&& state_after(g, s, k).iteration == first_stop(g, s) + k - 1
            &&& k < n ==> state_after(g, s, k).iteration < pin
        },
    decreases k,
{
    let first = first_stop(g, s);
    if computing(s) {
        if let Some(min) = s.min_value {
            assert(is_landing(g, min, following(s), landing(g, min, following(s))));
        }
        assert(first >= following(s));
    }
    if k == 1 {
        assert(state_after(g, s, 0) == s);
        assert(state_after(g, s, 1) == next_state(g, s));
        assert(may_pull(f, g, s));
    } else {
        let j = (k - 1) as nat;
        lemma_ready_state(f, g, s, n, pin, j);
        let sj = state_after(g, s, j);
        assert(state_after(g, s, k) == next_state(g, sj));
        if computing(sj) {
            assert(following(sj) == first + j);
            assert(target(g, sj) == following(sj));
            assert forall|i: u64| following(sj) <= i <= target(g, sj) implies #[trigger] follows(
                f,
                g,
                i,
            ) by {
                assert(following(s) <= i <= pin);
            }
            assert(may_pull(f, g, sj));
        } else {
            assert(may_pull(f, g, sj));
        }
        assert forall|i: nat| i < k implies may_pull(f, g, #[trigger] state_after(g, s, i)) by {
            if i == j {
            }
        }
    }
}

/// An engine that is ready for `n` pulls can make them.
pub proof fn lemma_ready_engine_runs<F: Fn(u64) -> B, B: PartialOrd>(
    f: &F,
    g: spec_fn(u64) -> B,
    s: EngineState<B>,
    n: nat,
    pin: u64,
)
    requires
        run_ready(f, g, s, n, pin),
    ensures
        may_run(f, g, s, n),
        can_run(g, s, n),
{
    if n > 0 {
        if exhausted(s) {
            assert forall|k: nat| k < n implies may_pull(f, g, #[trigger] state_after(g, s, k)) by {
                lemma_exhausted_stays(g, s, k);
            }
        } else {
            lemma_ready_state(f, g, s, n, pin, n);
        }
    }
}

} // verus!
