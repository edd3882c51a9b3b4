//! Growth calculators: objects that give the raw delay of an attempt, or `None`
//! when they have nothing further to give.

use vstd::arithmetic::power::{lemma_pow_increases, pow};
use vstd::arithmetic::power2::{lemma2_to64, lemma_pow2};
use vstd::prelude::*;

verus! {

/// A calculator of raw delays. Attempts are counted from one. A calculator may
/// keep state between calls.
pub trait GrowthFunction: Sized {
    /// `value` may be called for this attempt: the computation stays within
    /// the range of the numbers.
    spec fn defined(self, iteration: u64) -> bool;

    /// What `value` returns for this attempt.
    spec fn output(self, iteration: u64) -> Option<u64>;

    /// The calculator after `value` has been called for this attempt.
    spec fn advanced(self, iteration: u64) -> Self;

    /// The raw delay of an attempt, or `None` at the calculator's end.
    fn value(&mut self, iteration: u64) -> (r: Option<u64>)
        requires
            old(self).defined(iteration),
        ensures
            r == old(self).output(iteration),
            *final(self) == old(self).advanced(iteration),
    ;
}

/// Exponential growth: attempt `i` gives `base^i - 1`.
#[derive(Clone, Copy, Debug)]
pub struct Exponential {
    /// The number that is raised to the power of the attempt.
    pub base: u64,
}

/// Linear growth: attempt `i` gives `factor * i`.
#[derive(Clone, Copy, Debug)]
pub struct Geometric {
    /// The number by which the attempt is multiplied.
    pub factor: u64,
}

/// A calculator with a ceiling: once a value of the inner calculator has
/// reached the ceiling, every later value is the ceiling and the inner
/// calculator is called no more.
#[derive(Debug)]
pub struct Clamped<G> {
    /// The calculator whose values are clamped.
    pub inner: G,
    /// The value above which none is given.
    pub ceiling: u64,
    /// The value that the inner calculator gave last; zero before the first.
    pub current_value: u64,
}

impl Exponential {
    /// Exponential growth to the given base.
    pub fn new(base: u64) -> (r: Self)
        ensures
            r == (Exponential { base }),
    {
        Exponential { base }
    }

    /// Exponential growth to the base two.
    pub fn new_binary() -> (r: Self)
        ensures
            r == (Exponential { base: 2 }),
    {
        Exponential { base: 2 }
    }
}

impl GrowthFunction for Exponential {
    open spec fn defined(self, iteration: u64) -> bool {
        1 <= pow(self.base as int, iteration as nat) <= u64::MAX
    }

    open spec fn output(self, iteration: u64) -> Option<u64> {
        Some((pow(self.base as int, iteration as nat) - 1) as u64)
    }

    open spec fn advanced(self, iteration: u64) -> Self {
        self
    }

    fn value(&mut self, iteration: u64) -> (r: Option<u64>) {
        let base: u64 = self.base;
        if iteration == 0 {
            proof {
                reveal_with_fuel(pow, 1);
            }
            return Some(0);
        }
        if base <= 1 {
            proof {
                lemma_small_base(base, iteration);
            }
            return Some(0);
        }
        let mut power: u64 = 1;
        let mut done: u64 = 0;
        proof {
            reveal_with_fuel(pow, 1);
        }
        while done < iteration
            invariant
                base >= 2,
                done <= iteration,
                power == pow(base as int, done as nat),
                pow(base as int, iteration as nat) <= u64::MAX,
            decreases iteration - done,
        {
            proof {
                lemma_pow_increases(base as nat, (done + 1) as nat, iteration as nat);
                reveal_with_fuel(pow, 1);
                assert(pow(base as int, (done + 1) as nat) == base * pow(base as int, done as nat));
            }
            power = power * base;
            done += 1;
        }
        Some(power - 1)
    }
}

/// A power of one is one, and a power of zero with a positive exponent is zero.
proof fn lemma_small_base(base: u64, exponent: u64)
    requires
        base <= 1,
        exponent >= 1,
    ensures
        pow(base as int, exponent as nat) == base,
{
    if base == 0 {
        vstd::arithmetic::power::lemma0_pow(exponent as nat);
    } else {
        vstd::arithmetic::power::lemma1_pow(exponent as nat);
    }
}

/// A power to a base of two or more is at least the power of two.
proof fn lemma_pow_at_least_binary(base: u64, exponent: nat)
    requires
        base >= 2,
    ensures
        pow(base as int, exponent) >= pow(2, exponent) >= 1,
    decreases exponent,
{
    reveal_with_fuel(pow, 1);
    if exponent > 0 {
        lemma_pow_at_least_binary(base, (exponent - 1) as nat);
        let a = pow(base as int, (exponent - 1) as nat);
        let b = pow(2, (exponent - 1) as nat);
        assert(base * a >= 2 * b) by (nonlinear_arith)
            requires
                base >= 2,
                a >= b >= 1,
        ;
    }
}

/// Exponential growth to a base of two or more leaves the range of the numbers
/// at the sixty-fourth attempt at the latest: from there on `value` may not be
/// called.
pub proof fn lemma_exponential_growth_ends(base: u64, iteration: u64)
    requires
        base >= 2,
        iteration >= 64,
    ensures
        !(Exponential { base }).defined(iteration),
{
    lemma_pow_at_least_binary(base, iteration as nat);
    lemma_pow_increases(2, 64, iteration as nat);
    lemma2_to64();
    lemma_pow2(64);
}

impl Geometric {
    /// Linear growth by the given factor.
    pub fn new(factor: u64) -> (r: Self)
        ensures
            r == (Geometric { factor }),
    {
        Geometric { factor }
    }
}

impl GrowthFunction for Geometric {
    open spec fn defined(self, iteration: u64) -> bool {
        self.factor * iteration <= u64::MAX
    }

    open spec fn output(self, iteration: u64) -> Option<u64> {
        Some((self.factor * iteration) as u64)
    }

    open spec fn advanced(self, iteration: u64) -> Self {
        self
    }

    fn value(&mut self, iteration: u64) -> (r: Option<u64>) {
        Some(self.factor * iteration)
    }
}

impl<G: GrowthFunction> Clamped<G> {
    /// Puts a ceiling on a calculator.
    pub fn new(inner: G, ceiling: u64) -> (r: Self)
        ensures
            r == (Clamped { inner, ceiling, current_value: 0 }),
    {
        Clamped { inner, ceiling, current_value: 0 }
    }
}

impl<G: GrowthFunction> GrowthFunction for Clamped<G> {
    open spec fn defined(self, iteration: u64) -> bool {
        self.current_value >= self.ceiling || self.inner.defined(iteration)
    }

    open spec fn output(self, iteration: u64) -> Option<u64> {
        if self.current_value >= self.ceiling {
            Some(self.ceiling)
        } else {
            match self.inner.output(iteration) {
                Some(v) => Some(
                    if v >= self.ceiling {
                        self.ceiling
                    } else {
                        v
                    },
                ),
                None => None,
            }
        }
    }

    open spec fn advanced(self, iteration: u64) -> Self {
        if self.current_value >= self.ceiling {
            self
        } else {
            Clamped {
                inner: self.inner.advanced(iteration),
                ceiling: self.ceiling,
                current_value: match self.inner.output(iteration) {
                    Some(v) => v,
                    None => self.current_value,
                },
            }
        }
    }

    fn value(&mut self, iteration: u64) -> (r: Option<u64>) {
        if self.current_value >= self.ceiling {
            return Some(self.ceiling);
        }
        match self.inner.value(iteration) {
            Some(v) => {
                self.current_value = v;
                if v >= self.ceiling {
                    Some(self.ceiling)
                } else {
                    Some(v)
                }
            },
            None => None,
        }
    }
}

/// Once a value of the inner calculator has reached the ceiling, every attempt
/// gives the ceiling, whatever the attempt and without a call of the inner
/// calculator, and the calculator stays as it is.
pub proof fn lemma_clamped_stays_pinned<G: GrowthFunction>(calculator: Clamped<G>, iteration: u64)
    requires
        calculator.current_value >= calculator.ceiling,
    ensures
        calculator.defined(iteration),
        calculator.output(iteration) == Some(calculator.ceiling),
        calculator.advanced(iteration) == calculator,
{
}

/// No value of a clamped calculator lies above the ceiling, and a value of the
/// inner calculator that reaches the ceiling pins the calculator.
pub proof fn lemma_clamped_within_ceiling<G: GrowthFunction>(calculator: Clamped<G>, iteration: u64)
    ensures
        calculator.output(iteration) matches Some(v) ==> v <= calculator.ceiling,
        calculator.current_value < calculator.ceiling ==> (
        calculator.inner.output(iteration) matches Some(v) && v >= calculator.ceiling
            ==> calculator.advanced(iteration).current_value
            >= calculator.advanced(iteration).ceiling),
{
}

/// The values that a calculator gives for the attempts from `first` to `last`
/// in a row; fewer where the calculator comes to its end before.
pub open spec fn values_between<G: GrowthFunction>(calculator: G, first: u64, last: u64) -> Seq<u64>
    decreases last - first,
{
    if first > last {
        Seq::empty()
    } else {
        match calculator.output(first) {
            Some(v) => if first == last {
                seq![v]
            } else {
                seq![v] + values_between(calculator.advanced(first), (first + 1) as u64, last)
            },
            None => Seq::empty(),
        }
    }
}

/// The calculator after it has been asked for the attempts from `first` to
/// `last` in a row, or after its end where that comes before.
pub open spec fn advanced_between<G: GrowthFunction>(calculator: G, first: u64, last: u64) -> G
    decreases last - first,
{
    if first > last {
        calculator
    } else if first == last || calculator.output(first) is None {
        calculator.advanced(first)
    } else {
        advanced_between(calculator.advanced(first), (first + 1) as u64, last)
    }
}

/// The calculator may be asked for the attempts from `first` to `last` in a
/// row, as far as it gives values.
pub open spec fn defined_between<G: GrowthFunction>(calculator: G, first: u64, last: u64) -> bool
    decreases last - first,
{
    first > last || {
        &&& calculator.defined(first)
        &&& first < last && calculator.output(first) is Some ==> defined_between(
            calculator.advanced(first),
            (first + 1) as u64,
            last,
        )
    }
}

/// Asks a calculator for the attempts from one to `max_iterations` and
/// returns the values in order. Where the calculator comes to its end, the
/// sequence ends there.
pub fn sequence_of<G: GrowthFunction>(calculator: &mut G, max_iterations: u64) -> (r: Vec<u64>)
    requires
        defined_between(*old(calculator), 1, max_iterations),
    ensures
        r@ == values_between(*old(calculator), 1, max_iterations),
        *final(calculator) == advanced_between(*old(calculator), 1, max_iterations),
{
    let mut out: Vec<u64> = Vec::new();
    if max_iterations == 0 {
        return out;
    }
    let ghost start = *calculator;
    let mut iteration: u64 = 1;
    loop
        invariant_except_break
            1 <= iteration <= max_iterations,
            defined_between(*calculator, iteration, max_iterations),
            values_between(start, 1, max_iterations) == out@ + values_between(
                *calculator,
                iteration,
                max_iterations,
            ),
            advanced_between(start, 1, max_iterations) == advanced_between(
                *calculator,
                iteration,
                max_iterations,
            ),
        ensures
            values_between(start, 1, max_iterations) == out@,
            advanced_between(start, 1, max_iterations) == *calculator,
        decreases max_iterations - iteration,
    {
        let ghost before = out@;
        let ghost asked = *calculator;
        match calculator.value(iteration) {
            Some(v) => {
                out.push(v);
                if iteration == max_iterations {
                    proof {
                        assert(before + seq![v] =~= out@);
                    }
                    break ;
                }
                proof {
                    assert(before + (seq![v] + values_between(
                        *calculator,
                        (iteration + 1) as u64,
                        max_iterations,
                    )) =~= out@ + values_between(
                        *calculator,
                        (iteration + 1) as u64,
                        max_iterations,
                    ));
                }
                iteration += 1;
            },
            None => {
                proof {
                    assert(before + Seq::<u64>::empty() =~= before);
                }
                break ;
            },
        }
    }
    out
}

} // verus!
