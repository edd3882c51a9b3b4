//! The configuration of a backoff sequence and the engine that it starts.

use crate::engine::{
    bounded, budget, emitted, exhausted, fresh, is_landing, may_pull, may_run, next_state, produced,
    state_after, target, Bounds, EngineState,
};
use crate::growth::{follows, follows_between};
use crate::laws::lemma_pull_spends_one;
use crate::order::{below, ordered};
use vstd::prelude::*;

verus! {

/// A growth function together with the bounds of the sequences made from it.
#[derive(Clone)]
pub struct BackoffSequence<'a, F, B> {
    max_iterations: Option<u64>,
    min_value: Option<B>,
    max_value: Option<B>,
    calculator: &'a F,
}

/// One pass over a backoff sequence.
pub struct BackoffSequenceIterator<'a, F, B> {
    calculator: &'a F,
    iteration: u64,
    max_iterations: Option<u64>,
    current_value: Option<B>,
    min_value: Option<B>,
    max_value: Option<B>,
}

impl<'a, F, B> View for BackoffSequence<'a, F, B> {
    type V = Bounds<B>;

    closed spec fn view(&self) -> Bounds<B> {
        Bounds {
            max_iterations: self.max_iterations,
            min_value: self.min_value,
            max_value: self.max_value,
        }
    }
}

impl<'a, F, B> BackoffSequence<'a, F, B> where
    F: Fn(u64) -> B,
    B: PartialOrd + Copy + core::fmt::Debug,
 {
    /// The growth function that the sequences are made from.
    pub closed spec fn growth(&self) -> &F {
        self.calculator
    }

    /// A configuration without bounds.
    pub fn new(f: &'a F) -> (r: Self)
        ensures
            r.growth() == f,
            r@ == (Bounds::<B> { max_iterations: None, min_value: None, max_value: None }),
    {
        BackoffSequence { calculator: f, max_iterations: None, min_value: None, max_value: None }
    }

    /// Sets the number of values after which a sequence ends.
    pub fn max_iterations(&mut self, x: u64) -> (r: &mut Self)
        ensures
            r@ == (Bounds { max_iterations: Some(x), ..old(self)@ }),
            r.growth() == old(self).growth(),
            *final(self) == *final(r),
    {
        self.max_iterations = Some(x);
        self
    }

    /// Sets the floor.
    pub fn min(&mut self, x: B) -> (r: &mut Self)
        ensures
            r@ == (Bounds { min_value: Some(x), ..old(self)@ }),
            r.growth() == old(self).growth(),
            *final(self) == *final(r),
    {
        self.min_value = Some(x);
        self
    }

    /// Sets the ceiling.
    pub fn max(&mut self, x: B) -> (r: &mut Self)
        ensures
            r@ == (Bounds { max_value: Some(x), ..old(self)@ }),
            r.growth() == old(self).growth(),
            *final(self) == *final(r),
    {
        self.max_value = Some(x);
        self
    }

    /// The bounds as they are set.
    pub fn bounds(&self) -> (r: Bounds<B>)
        ensures
            r == self@,
    {
        Bounds {
            max_iterations: self.max_iterations,
            min_value: self.min_value,
            max_value: self.max_value,
        }
    }

    /// Starts a pass over the sequence. The configuration stays as it is.
    pub fn iter(&self) -> (r: BackoffSequenceIterator<'_, F, B>)
        ensures
            r.growth() == self.growth(),
            r@ == fresh(self@),
    {
        BackoffSequenceIterator {
            iteration: 0,
            max_iterations: self.max_iterations,
            calculator: self.calculator,
            current_value: None,
            max_value: self.max_value,
            min_value: self.min_value,
        }
    }
}

impl<'a, F, B> BackoffSequence<'a, F, B> where
    F: Fn(u64) -> B,
    B: PartialOrd + Copy + core::fmt::Debug,
 {
    /// Starts a pass over the sequence, as `iter` does.
    pub fn into_iter(&self) -> (r: BackoffSequenceIterator<'_, F, B>)
        ensures
            r.growth() == self.growth(),
            r@ == fresh(self@),
    {
        self.iter()
    }
}

impl<'a, F, B> View for BackoffSequenceIterator<'a, F, B> {
    type V = EngineState<B>;

    closed spec fn view(&self) -> EngineState<B> {
        EngineState {
            iteration: self.iteration,
            max_iterations: self.max_iterations,
            current_value: self.current_value,
            min_value: self.min_value,
            max_value: self.max_value,
        }
    }
}

impl<'a, F, B> BackoffSequenceIterator<'a, F, B> where
    F: Fn(u64) -> B,
    B: PartialOrd + Copy + core::fmt::Debug,
 {
    /// The growth function that the engine calls.
    pub closed spec fn growth(&self) -> &F {
        self.calculator
    }

    /// The state of the engine.
    pub fn state(&self) -> (r: EngineState<B>)
        ensures
            r == self@,
    {
        EngineState {
            iteration: self.iteration,
            max_iterations: self.max_iterations,
            current_value: self.current_value,
            min_value: self.min_value,
            max_value: self.max_value,
        }
    }

    /// Pulls the next value, or `None` once the engine is exhausted.
    pub fn next(&mut self) -> (r: Option<B>)
        requires
            ordered::<B>(),
            exists|g: spec_fn(u64) -> B| may_pull(old(self).growth(), g, old(self)@),
        ensures
            final(self).growth() == old(self).growth(),
            r is None <==> exhausted(old(self)@),
            forall|g: spec_fn(u64) -> B| #[trigger]
                may_pull(old(self).growth(), g, old(self)@) ==> {
                    &&& final(self)@ == next_state(g, old(self)@)
                    &&& r == emitted(g, old(self)@)
                },
    {
        if let Some(mi) = self.max_iterations {
            if self.iteration >= mi {
                return None;
            }
        }
        let ghost before = self@;
        let start: u64 = self.iteration + 1;
        self.iteration = start;
        if let Some(cur) = self.current_value {
            if let Some(max) = self.max_value {
                if cur >= max {
                    return Some(max);
                }
            }
        }
        let ghost g0 = choose|g: spec_fn(u64) -> B| may_pull(self.calculator, g, before);
        let ghost goal = target(g0, before);
        proof {
            assert(follows(self.calculator, g0, start));
        }
        let mut new_value = (self.calculator)(start);
        let mut iter: u64 = start;
        if let Some(min) = self.min_value {
            while new_value < min
                invariant
                    ordered::<B>(),
                    start <= iter <= goal,
                    is_landing(g0, min, start, goal),
                    follows_between(self.calculator, g0, start, goal),
                    new_value == g0(iter),
                    forall|i: u64|
                        start <= i <= iter ==> #[trigger] call_ensures(
                            self.calculator,
                            (i,),
                            g0(i),
                        ),
                decreases goal - iter,
            {
                iter += 1;
                proof {
                    assert(follows(self.calculator, g0, iter));
                }
                new_value = (self.calculator)(iter);
            }
            if let Some(mi) = self.max_iterations {
                self.max_iterations = Some(mi + (iter - start));
            }
            self.iteration = iter;
            self.min_value = None;
        }
        let out = match self.max_value {
            Some(max) => if new_value > max {
                max
            } else {
                new_value
            },
            None => new_value,
        };
        self.current_value = Some(out);
        let r = Some(out);
        proof {
            assert forall|g: spec_fn(u64) -> B| #[trigger]
                may_pull(old(self).growth(), g, old(self)@) implies {
                &&& self@ == next_state(g, old(self)@)
                &&& r == emitted(g, old(self)@)
            } by {
                let t = target(g, before);
                if let Some(min) = before.min_value {
                    if t < iter {
                        assert(follows(self.calculator, g, t));
                        assert(call_ensures(self.calculator, (t,), g0(t)));
                        assert(below(g0(t), min));
                    }
                    if iter < t {
                        assert(follows(self.calculator, g, iter));
                        assert(call_ensures(self.calculator, (iter,), g0(iter)));
                        assert(below(g(iter), min));
                    }
                }
                assert(t == iter);
                assert(follows(self.calculator, g, iter));
                assert(call_ensures(self.calculator, (iter,), g0(iter)));
            }
        }
        r
    }

    /// Pulls a bounded engine until it is exhausted and returns the values in
    /// the order in which they came.
    pub fn collect(self) -> (r: Vec<B>)
        requires
            ordered::<B>(),
            bounded(self@),
            exists|g: spec_fn(u64) -> B| may_run(self.growth(), g, self@, budget(self@)),
        ensures
            r@.len() == budget(self@),
            forall|g: spec_fn(u64) -> B| #[trigger]
                may_run(self.growth(), g, self@, budget(self@)) ==> r@ == produced(
                    g,
                    self@,
                    budget(self@),
                ),
    {
        let ghost s0 = self@;
        let ghost n = budget(s0);
        let ghost g0 = choose|g: spec_fn(u64) -> B| may_run(self.growth(), g, s0, n);
        let mut engine = self;
        let mut out: Vec<B> = Vec::new();
        proof {
            assert forall|g: spec_fn(u64) -> B| #[trigger]
                may_run(self.growth(), g, s0, n) implies out@ == produced(g, s0, 0) by {
                assert(out@ =~= produced(g, s0, 0));
            }
        }
        loop
            invariant
                ordered::<B>(),
                engine.growth() == self.growth(),
                may_run(self.growth(), g0, s0, n),
                bounded(engine@),
                out@.len() + budget(engine@) == n,
                forall|g: spec_fn(u64) -> B| #[trigger]
                    may_run(self.growth(), g, s0, n) ==> {
                        &&& engine@ == state_after(g, s0, out@.len())
                        &&& out@ == produced(g, s0, out@.len())
                    },
            ensures
                out@.len() == n,
            decreases budget(engine@),
        {
            let ghost k = out@.len();
            let ghost sk = engine@;
            let ghost before = out@;
            proof {
                if k < n {
                    assert(may_pull(self.growth(), g0, state_after(g0, s0, k)));
                }
                assert(may_pull(self.growth(), g0, sk));
            }
            match engine.next() {
                Some(v) => {
                    out.push(v);
                    proof {
                        lemma_pull_spends_one(g0, sk);
                        assert forall|g: spec_fn(u64) -> B| #[trigger]
                            may_run(self.growth(), g, s0, n) implies {
                            &&& engine@ == state_after(g, s0, out@.len())
                            &&& out@ == produced(g, s0, out@.len())
                        } by {
                            assert(may_pull(self.growth(), g, state_after(g, s0, k)));
                            assert(before == produced(g, s0, k));
                            assert(out@ =~= produced(g, s0, k + 1));
                        }
                    }
                },
                None => {
                    break ;
                },
            }
        }
        out
    }
}

} // verus!
