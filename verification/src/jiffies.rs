//! Discrete simulation time.

use vstd::prelude::*;
use vstd::std_specs::ops::AddSpecImpl;
use vstd::std_specs::ops::MulSpecImpl;
use vstd::std_specs::ops::SubSpecImpl;
use vstd::string::StringExecFns;

verus! {

/// A point in, or a span of, simulated time, counted in whole ticks.
///
/// What one tick stands for is up to the scenario. Time is an integer so
/// that a run is reproduced exactly on every machine.
#[derive(Clone, Copy, Debug, PartialEq, Eq, PartialOrd, Ord, Hash, Structural)]
pub struct Jiffies(pub usize);

/// The sum of two tick counts, capped at the largest representable instant.
pub open spec fn capped_sum(a: usize, b: usize) -> usize {
    if a + b > usize::MAX {
        usize::MAX
    } else {
        (a + b) as usize
    }
}

/// Adds two tick counts; an instant past the largest representable one is
/// held at that largest instant.
pub fn capped_add(a: usize, b: usize) -> (sum: usize)
    ensures
        sum == capped_sum(a, b),
{
    if a > usize::MAX - b {
        usize::MAX
    } else {
        a + b
    }
}

impl Jiffies {
    /// The number of ticks as a mathematical integer.
    pub open spec fn ticks(self) -> nat {
        self.0 as nat
    }

    /// The later of two instants.
    pub fn max(self, other: Jiffies) -> (later: Jiffies)
        ensures
            later.0 == if self.0 >= other.0 { self.0 } else { other.0 },
    {
        if self.0 >= other.0 {
            self
        } else {
            other
        }
    }

    /// The earlier of two instants.
    pub fn min(self, other: Jiffies) -> (earlier: Jiffies)
        ensures
            earlier.0 == if self.0 <= other.0 { self.0 } else { other.0 },
    {
        if self.0 <= other.0 {
            self
        } else {
            other
        }
    }

    /// The text that stands for the instant: the word `Jiffies` and the
    /// number of ticks in brackets.
    pub open spec fn text(self) -> Seq<char> {
        "Jiffies("@ + crate::text::decimal(self.0 as nat) + ")"@
    }

    /// Writes the instant out.
    pub fn to_text(&self) -> (text: String)
        ensures
            text@ == self.text(),
    {
        let mut text = "Jiffies(".to_owned();
        crate::text::append_decimal(&mut text, self.0);
        text.append(")");
        text
    }

    /// Moves an instant forward by `rhs` ticks.
    pub fn advance(&mut self, rhs: Jiffies)
        requires
            old(self).0 + rhs.0 <= usize::MAX,
        ensures
            final(self).0 == old(self).0 + rhs.0,
    {
        self.0 = self.0 + rhs.0;
    }

    /// Moves an instant forward by a bare number of ticks.
    pub fn advance_by(&mut self, rhs: usize)
        requires
            old(self).0 + rhs <= usize::MAX,
        ensures
            final(self).0 == old(self).0 + rhs,
    {
        self.0 = self.0 + rhs;
    }
}

impl Default for Jiffies {
    fn default() -> (zero: Jiffies)
        ensures
            zero.0 == 0,
    {
        Jiffies(0)
    }
}

impl core::ops::Add for Jiffies {
    type Output = Jiffies;

    fn add(self, rhs: Jiffies) -> (sum: Jiffies) {
        Jiffies(self.0 + rhs.0)
    }
}

impl AddSpecImpl for Jiffies {
    open spec fn obeys_add_spec() -> bool {
        true
    }

    open spec fn add_req(self, rhs: Jiffies) -> bool {
        self.0 + rhs.0 <= usize::MAX
    }

    open spec fn add_spec(self, rhs: Jiffies) -> Jiffies {
        Jiffies((self.0 + rhs.0) as usize)
    }
}

impl core::ops::Sub for Jiffies {
    type Output = Jiffies;

    fn sub(self, rhs: Jiffies) -> (difference: Jiffies) {
        Jiffies(self.0 - rhs.0)
    }
}

impl SubSpecImpl for Jiffies {
    open spec fn obeys_sub_spec() -> bool {
        true
    }

    open spec fn sub_req(self, rhs: Jiffies) -> bool {
        self.0 >= rhs.0
    }

    open spec fn sub_spec(self, rhs: Jiffies) -> Jiffies {
        Jiffies((self.0 - rhs.0) as usize)
    }
}

impl core::ops::Mul<Jiffies> for usize {
    type Output = usize;

    fn mul(self, rhs: Jiffies) -> (product: usize) {
        self * rhs.0
    }
}

impl MulSpecImpl<Jiffies> for usize {
    open spec fn obeys_mul_spec() -> bool {
        true
    }

    open spec fn mul_req(self, rhs: Jiffies) -> bool {
        self * rhs.0 <= usize::MAX
    }

    open spec fn mul_spec(self, rhs: Jiffies) -> usize {
        (self * rhs.0) as usize
    }
}

} // verus!
