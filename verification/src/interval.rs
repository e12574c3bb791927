//! The polling cadence of a panel, a positive rational number of seconds.

use num_rational::Ratio;
use vstd::prelude::*;

verus! {

/// A cadence of `numer / denom` seconds.
#[derive(Clone, Copy, Debug, PartialEq, Eq, Structural)]
pub struct UpdateInterval {
    pub numer: u64,
    pub denom: u64,
}

/// Bytes per second, rounded down, when `delta` bytes moved during an
/// interval of `numer / denom` seconds.
pub open spec fn rate_per_second(delta: int, numer: int, denom: int) -> int
    recommends
        numer > 0,
{
    (delta * denom) / numer
}

/// Calls `num_rational::Ratio::from_integer` and reads the ratio back through
/// `numer` and `denom`. The ratio that stands for the integer `n` has
/// numerator `n` and denominator one.
#[verifier::external_body]
fn ratio_from_integer(n: u64) -> (r: UpdateInterval)
    ensures
        r.numer == n,
        r.denom == 1,
{
    let ratio = Ratio::from_integer(n);
    UpdateInterval { numer: *ratio.numer(), denom: *ratio.denom() }
}

impl UpdateInterval {
    /// A cadence is usable when it is a positive amount of time.
    pub open spec fn wf(&self) -> bool {
        self.numer > 0 && self.denom > 0
    }

    /// The cadence of `n` whole seconds.
    pub fn whole_seconds(n: u64) -> (r: UpdateInterval)
        ensures
            r.numer == n,
            r.denom == 1,
    {
        ratio_from_integer(n)
    }

    /// Turns a byte count observed over one interval into bytes per second.
    pub fn per_second(&self, delta: u64) -> (rate: u128)
        requires
            self.wf(),
        ensures
            rate == rate_per_second(delta as int, self.numer as int, self.denom as int),
    {
        assert(delta * self.denom <= u64::MAX * u64::MAX) by (nonlinear_arith)
            requires
                delta <= u64::MAX,
                self.denom <= u64::MAX,
        ;
        (delta as u128 * self.denom as u128) / (self.numer as u128)
    }
}

} // verus!
