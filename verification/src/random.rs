//! Seeded randomness and the distributions that latencies are drawn from.

use rand::distr::Bernoulli;
use rand::distr::Uniform;
use rand::rngs::StdRng;
use rand::seq::IndexedRandom;
use rand::Rng;
use rand::SeedableRng;
use vstd::prelude::*;

use crate::jiffies::Jiffies;

verus! {

/// The seed of a run.
pub type Seed = u64;

/// A probability given as a ratio of two integers.
#[derive(Clone, Copy, Debug, PartialEq, Eq, Structural)]
pub struct Probability {
    pub numerator: u32,
    pub denominator: u32,
}

impl Probability {
    /// A ratio names a probability when it lies between zero and one.
    pub open spec fn well_formed(self) -> bool {
        0 < self.denominator && self.numerator <= self.denominator
    }

    /// The event happens every time.
    pub open spec fn is_certain(self) -> bool {
        self.numerator == self.denominator
    }

    /// The event never happens.
    pub open spec fn is_impossible(self) -> bool {
        self.numerator == 0
    }

    /// The probability `numerator / denominator`, or nothing when the ratio
    /// does not lie between zero and one.
    pub fn new(numerator: u32, denominator: u32) -> (p: Option<Probability>)
        ensures
            p is Some <==> 0 < denominator && numerator <= denominator,
            p matches Some(q) ==> q.numerator == numerator && q.denominator == denominator,
    {
        if denominator == 0 || numerator > denominator {
            None
        } else {
            Some(Probability { numerator, denominator })
        }
    }

    /// The probability one.
    pub fn always() -> (p: Probability)
        ensures
            p.well_formed(),
            p.is_certain(),
    {
        Probability { numerator: 1, denominator: 1 }
    }

    /// The probability zero.
    pub fn never() -> (p: Probability)
        ensures
            p.well_formed(),
            p.is_impossible(),
    {
        Probability { numerator: 0, denominator: 1 }
    }
}

/// A distribution over durations.
#[derive(Clone, Copy, Debug, PartialEq, Eq, Structural)]
pub enum Distributions {
    /// Every duration from the first to the second, both included, is
    /// equally likely.
    Uniform(Jiffies, Jiffies),
    /// The given duration with the given probability, otherwise zero.
    Bernoulli(Probability, Jiffies),
    /// A real number drawn around a mean with a standard deviation, then
    /// rounded to the nearest duration that is not negative.
    Normal(Jiffies, Jiffies),
}

impl Distributions {
    /// Whether the parameters describe a distribution at all.
    pub open spec fn well_formed(self) -> bool {
        match self {
            Distributions::Uniform(low, high) => low.0 <= high.0,
            Distributions::Bernoulli(p, _) => p.well_formed(),
            Distributions::Normal(_, _) => true,
        }
    }

    /// Whether a sample has to be computed from a real number.
    pub open spec fn needs_real_draw(self) -> bool {
        self is Normal
    }

    /// Whether `sample` is a value that the distribution can produce.
    pub open spec fn admits(self, sample: usize) -> bool {
        match self {
            Distributions::Uniform(low, high) => low.0 <= sample <= high.0,
            Distributions::Bernoulli(p, value) => {
                if p.is_certain() {
                    sample == value.0
                } else if p.is_impossible() {
                    sample == 0
                } else {
                    sample == value.0 || sample == 0
                }
            },
            Distributions::Normal(_, _) => true,
        }
    }

    /// Checks the parameters.
    pub fn is_well_formed(&self) -> (ok: bool)
        ensures
            ok == self.well_formed(),
    {
        match self {
            Distributions::Uniform(low, high) => low.0 <= high.0,
            Distributions::Bernoulli(p, _) => 0 < p.denominator && p.numerator <= p.denominator,
            Distributions::Normal(_, _) => true,
        }
    }
}

/// A uniform distribution over a single duration produces that duration.
pub proof fn lemma_uniform_point(a: Jiffies, sample: usize)
    requires
        Distributions::Uniform(a, a).admits(sample),
    ensures
        sample == a.0,
{
}

/// A Bernoulli distribution with probability one produces its value every
/// time, and one with probability zero produces zero every time.
pub proof fn lemma_bernoulli_extremes(p: Probability, value: Jiffies, sample: usize)
    requires
        p.well_formed(),
        Distributions::Bernoulli(p, value).admits(sample),
    ensures
        p.is_certain() ==> sample == value.0,
        p.is_impossible() ==> sample == 0,
{
}

/// `rand::rngs::StdRng`, the generator of the `rand` crate. Nothing of
/// what it holds is visible here.
#[verifier::external_type_specification]
#[verifier::external_body]
pub struct ExStdRng(StdRng);

/// `StdRng::seed_from_u64`: a generator whose stream is fixed by `seed`.
/// Nothing is claimed of the stream itself.
#[verifier::external_body]
fn seeded_generator(seed: u64) -> (generator: StdRng) {
    StdRng::seed_from_u64(seed)
}

/// `Uniform::new_inclusive(low, high)` sampled once through `Rng::sample`.
/// The constructor fails only when `low > high`; a sample of the resulting
/// distribution lies in the closed range.
#[verifier::external_body]
fn draw_uniform(generator: &mut StdRng, low: usize, high: usize) -> (sample: usize)
    requires
        low <= high,
    ensures
        low <= sample <= high,
{
    let distribution = Uniform::new_inclusive(low, high).expect("Invalid bounds");
    generator.sample(distribution)
}

/// `Bernoulli::from_ratio(numerator, denominator)` sampled once through
/// `Rng::sample`. The constructor fails only when the ratio is above one or
/// the denominator is zero; with equal numerator and denominator every
/// sample is true, with a zero numerator every sample is false.
#[verifier::external_body]
fn draw_bernoulli(generator: &mut StdRng, numerator: u32, denominator: u32) -> (hit: bool)
    requires
        0 < denominator,
        numerator <= denominator,
    ensures
        numerator == denominator ==> hit,
        numerator == 0 ==> !hit,
{
    let distribution = Bernoulli::from_ratio(numerator, denominator).expect("Invalid probability");
    generator.sample(distribution)
}

/// `IndexedRandom::choose` on a slice: one of the slice's elements, or
/// nothing when the slice is empty.
#[verifier::external_body]
fn draw_element<T: Copy>(generator: &mut StdRng, from: &[T]) -> (chosen: T)
    requires
        from@.len() > 0,
    ensures
        from@.contains(chosen),
{
    from.choose(generator).copied().expect("Chose from empty slice")
}

/// The single source of randomness of a run.
pub struct Randomizer {
    rnd: StdRng,
}

impl Randomizer {
    /// A generator whose whole stream is fixed by `seed`.
    pub fn new(seed: Seed) -> (randomizer: Self) {
        Randomizer { rnd: seeded_generator(seed) }
    }

    /// Draws a duration from `d`. A distribution that needs a real number
    /// is not drawn from: the result is then `None` and the stream is left
    /// where it was.
    pub fn random_usize(&mut self, d: Distributions) -> (sample: Option<usize>)
        requires
            d.well_formed(),
        ensures
            sample is None <==> d.needs_real_draw(),
            sample matches Some(s) ==> d.admits(s),
    {
        match d {
            Distributions::Uniform(Jiffies(from), Jiffies(to)) => {
                Some(draw_uniform(&mut self.rnd, from, to))
            },
            Distributions::Bernoulli(p, Jiffies(val)) => {
                if draw_bernoulli(&mut self.rnd, p.numerator, p.denominator) {
                    Some(val)
                } else {
                    Some(0)
                }
            },
            Distributions::Normal(_, _) => None,
        }
    }

    /// Picks one element of `from`, each with the same probability.
    pub fn choose_from_slice<T: Copy>(&mut self, from: &[T]) -> (chosen: T)
        requires
            from@.len() > 0,
        ensures
            from@.contains(chosen),
    {
        draw_element(&mut self.rnd, from)
    }

    /// The state of the underlying generator.
    pub closed spec fn state(&self) -> StdRng {
        self.rnd
    }

    /// The underlying generator, for draws that this library cannot make.
    /// What is drawn from it moves the stream of the randomizer on.
    pub fn generator(&mut self) -> (generator: &mut StdRng)
        ensures
            *generator == old(self).state(),
            final(self).state() == *final(generator),
    {
        &mut self.rnd
    }
}

} // verus!
