//! Exact fractional quantities used by the session logic: a percentage for
//! session-progress estimates and a parts-per-billion fraction for the
//! disabled-validator threshold.  Both are plain integers with stated ranges,
//! so every operation on them is verified exactly.
use vstd::prelude::*;

verus! {

/// A percentage, held as whole parts per hundred.
#[derive(Clone, Copy, PartialEq, Eq, Structural, Debug)]
pub struct Percent {
    /// Parts per hundred; a well-formed value keeps this at most 100.
    pub parts: u8,
}

impl Percent {
    /// Well-formedness: the value denotes at most 100%.
    pub open spec fn wf(self) -> bool {
        self.parts <= 100
    }

    /// The percentage `p / q`, rounded down to whole parts per hundred.
    pub fn from_rational(p: u64, q: u64) -> (r: Percent)
        requires
            1 <= q,
            p <= q,
        ensures
            r.wf(),
            r.parts == (p as int * 100) / (q as int),
    {
        let num: u128 = (p as u128) * 100;
        let den: u128 = q as u128;
        let quotient: u128 = num / den;
        proof {
            assert(num <= den * 100) by (nonlinear_arith)
                requires
                    num == p as u128 as int * 100,
                    den == q as u128 as int,
                    p <= q,
            ;
            assert(num / den <= 100) by (nonlinear_arith)
                requires
                    1 <= den,
                    num <= den * 100,
            ;
        }
        Percent { parts: quotient as u8 }
    }
}

/// A fraction, held as parts per billion.
#[derive(Clone, Copy, PartialEq, Eq, Structural, Debug)]
pub struct Perbill {
    /// Parts per billion; a well-formed value keeps this at most 1_000_000_000.
    pub parts: u32,
}

/// The number of parts that make up the whole of a [`Perbill`].
pub const BILLION: u32 = 1_000_000_000;

impl Perbill {
    /// Well-formedness: the fraction denotes at most the whole.
    pub open spec fn wf(self) -> bool {
        self.parts <= BILLION
    }

    /// The fraction `parts / 1_000_000_000`.
    pub fn from_parts(parts: u32) -> (r: Perbill)
        requires
            parts <= BILLION,
        ensures
            r.wf(),
            r.parts == parts,
    {
        Perbill { parts }
    }

    /// The fraction `p / 100`.
    pub fn from_percent(p: u32) -> (r: Perbill)
        requires
            p <= 100,
        ensures
            r.wf(),
            r.parts == p * 10_000_000,
    {
        Perbill { parts: p * 10_000_000 }
    }

    /// The fraction `p / q`, rounded down to whole parts per billion.
    pub fn from_rational(p: u64, q: u64) -> (r: Perbill)
        requires
            1 <= q,
            p <= q,
        ensures
            r.wf(),
            r.parts == (p as int * BILLION) / (q as int),
    {
        let num: u128 = (p as u128) * (BILLION as u128);
        let den: u128 = q as u128;
        let quotient: u128 = num / den;
        proof {
            assert(num <= den * (BILLION as int)) by (nonlinear_arith)
                requires
                    num == p as u128 as int * (BILLION as int),
                    den == q as u128 as int,
                    p <= q,
            ;
            assert(num / den <= BILLION as int) by (nonlinear_arith)
                requires
                    1 <= den,
                    num <= den * (BILLION as int),
            ;
        }
        Perbill { parts: quotient as u32 }
    }

    /// What multiplying a count by this fraction yields, rounded to the
    /// nearest whole number with ties rounded up.
    pub open spec fn spec_mul_nearest(self, n: u64) -> int {
        (self.parts as int * n as int + 500_000_000) / (BILLION as int)
    }

    /// Multiply a count by the fraction, rounding to the nearest whole
    /// number (ties round up).  The result never exceeds the count.
    pub fn mul_nearest(self, n: u64) -> (r: u64)
        requires
            self.wf(),
        ensures
            r == self.spec_mul_nearest(n),
            r <= n,
    {
        proof {
            assert(self.parts as int * n as int <= 1_000_000_000 * (u64::MAX as int))
                by (nonlinear_arith)
                requires
                    self.parts <= 1_000_000_000,
                    n <= u64::MAX,
            ;
        }
        let num: u128 = (self.parts as u128) * (n as u128) + 500_000_000;
        let quotient: u128 = num / (BILLION as u128);
        proof {
            assert(num as int <= (BILLION as int) * (n as int) + 500_000_000) by (nonlinear_arith)
                requires
                    num as int == self.parts as int * n as int + 500_000_000,
                    self.parts <= BILLION as int,
            ;
            assert((num as int) / (BILLION as int) <= n as int) by (nonlinear_arith)
                requires
                    num as int <= (BILLION as int) * (n as int) + 500_000_000,
                    BILLION == 1_000_000_000,
            ;
        }
        quotient as u64
    }
}

} // verus!
