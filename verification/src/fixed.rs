//! Saturating fixed-point scalars: the number type of every coordinate,
//! velocity and time span in the simulation.

use vstd::prelude::*;

verus! {

/// Raw steps in one whole unit: a raw value `r` stands for `r / SCALE`.
pub const SCALE: i64 = 1_000_000;

/// `v` brought into the range of `i64`.
pub open spec fn clamp(v: int) -> int {
    if v < i64::MIN {
        i64::MIN as int
    } else if v > i64::MAX {
        i64::MAX as int
    } else {
        v
    }
}

/// Distance of `v` from zero.
pub open spec fn magnitude(v: int) -> int {
    if v < 0 {
        -v
    } else {
        v
    }
}

/// The quotient `n / d` rounded toward zero, for `d != 0`.
pub open spec fn quot(n: int, d: int) -> int {
    if (n >= 0) == (d > 0) {
        magnitude(n) / magnitude(d)
    } else {
        -(magnitude(n) / magnitude(d))
    }
}

/// Whether `r` is the integer square root of `n`, rounded down.
pub open spec fn is_floor_sqrt(n: int, r: int) -> bool {
    r >= 0 && r * r <= n && n < (r + 1) * (r + 1)
}

/// The integer square root of `n`, rounded down, for `n >= 0`.
pub open spec fn floor_sqrt(n: int) -> int {
    choose|r: int| is_floor_sqrt(n, r)
}

/// At most one number is the rounded-down square root of `n`.
pub proof fn lemma_floor_sqrt_unique(n: int, r1: int, r2: int)
    requires
        is_floor_sqrt(n, r1),
        is_floor_sqrt(n, r2),
    ensures
        r1 == r2,
{
    if r1 < r2 {
        assert((r1 + 1) * (r1 + 1) <= r2 * r2) by (nonlinear_arith)
            requires
                0 <= r1 + 1 <= r2,
        ;
    } else if r2 < r1 {
        assert((r2 + 1) * (r2 + 1) <= r1 * r1) by (nonlinear_arith)
            requires
                0 <= r2 + 1 <= r1,
        ;
    }
}

/// A number with the defining property of the square root is the square root.
pub proof fn lemma_floor_sqrt_is(n: int, r: int)
    requires
        is_floor_sqrt(n, r),
    ensures
        floor_sqrt(n) == r,
{
    lemma_floor_sqrt_unique(n, r, floor_sqrt(n));
}

/// The square root of `n`, rounded down.
pub fn isqrt(n: u128) -> (r: u64)
    ensures
        is_floor_sqrt(n as int, r as int),
        r as int == floor_sqrt(n as int),
{
    let mut lo: u128 = 0;
    let mut hi: u128 = 0x1_0000_0000_0000_0000;
    assert(hi * hi > u128::MAX) by (nonlinear_arith)
        requires
            hi == 0x1_0000_0000_0000_0000,
    ;
    while hi - lo > 1
        invariant
            lo < hi <= 0x1_0000_0000_0000_0000,
            lo * lo <= n,
            n < hi * hi,
        decreases hi - lo,
    {
        let mid: u128 = lo + (hi - lo) / 2;
        assert(mid * mid <= u128::MAX) by (nonlinear_arith)
            requires
                0 <= mid <= 0xffff_ffff_ffff_ffff,
        ;
        if mid * mid <= n {
            lo = mid;
        } else {
            hi = mid;
        }
    }
    proof {
        lemma_floor_sqrt_is(n as int, lo as int);
    }
    lo as u64
}

/// The quotient of two wide integers, rounded toward zero.
fn quot_wide(n: i128, d: i128) -> (q: i128)
    requires
        d != 0,
        n > i128::MIN,
        d > i128::MIN,
    ensures
        q == quot(n as int, d as int),
{
    let na: i128 = if n < 0 { -n } else { n };
    let da: i128 = if d < 0 { -d } else { d };
    let qa: i128 = na / da;
    assert(0 <= qa <= na) by (nonlinear_arith)
        requires
            qa == na / da,
            na >= 0,
            da > 0,
    ;
    if (n >= 0) == (d > 0) {
        qa
    } else {
        -qa
    }
}

/// A wide integer brought into the range of `i64`.
fn narrow(v: i128) -> (r: i64)
    ensures
        r == clamp(v as int),
{
    if v < i64::MIN as i128 {
        i64::MIN
    } else if v > i64::MAX as i128 {
        i64::MAX
    } else {
        v as i64
    }
}

/// A fixed-point number: `raw` counts steps of `1 / SCALE`.
///
/// Every operation saturates at the ends of the `i64` range instead of
/// wrapping, so each is total and none can fail.
#[derive(Clone, Copy, PartialEq, Eq, Debug, Structural)]
pub struct Fixed {
    pub raw: i64,
}

impl View for Fixed {
    type V = int;

    open spec fn view(&self) -> int {
        self.raw as int
    }
}

impl Fixed {
    /// The number with the raw value `clamp(v)`.
    pub open spec fn of(v: int) -> Fixed {
        Fixed { raw: clamp(v) as i64 }
    }

    pub open spec fn spec_add(self, rhs: Fixed) -> Fixed {
        Fixed::of(self.raw + rhs.raw)
    }

    pub open spec fn spec_sub(self, rhs: Fixed) -> Fixed {
        Fixed::of(self.raw - rhs.raw)
    }

    pub open spec fn spec_neg(self) -> Fixed {
        Fixed::of(-self.raw)
    }

    pub open spec fn spec_abs(self) -> Fixed {
        Fixed::of(magnitude(self.raw as int))
    }

    /// The product, rounded toward zero to the nearest raw step.
    pub open spec fn spec_mul(self, rhs: Fixed) -> Fixed {
        Fixed::of(quot(self.raw * rhs.raw, SCALE as int))
    }

    /// The quotient, rounded toward zero to the nearest raw step. Division by
    /// zero saturates toward the sign of the dividend; zero over zero is zero.
    pub open spec fn spec_div(self, rhs: Fixed) -> Fixed {
        if rhs.raw != 0 {
            Fixed::of(quot(self.raw * SCALE, rhs.raw as int))
        } else if self.raw > 0 {
            Fixed { raw: i64::MAX }
        } else if self.raw < 0 {
            Fixed { raw: i64::MIN }
        } else {
            Fixed { raw: 0 }
        }
    }

    pub fn from_raw(raw: i64) -> (r: Fixed)
        ensures
            r.raw == raw,
    {
        Fixed { raw }
    }

    /// The whole number `units`, saturated.
    pub fn from_units(units: i64) -> (r: Fixed)
        ensures
            r == Fixed::of(units * SCALE),
    {
        let scale: i128 = SCALE as i128;
        assert(scale == 1_000_000);
        Fixed { raw: narrow((units as i128) * scale) }
    }

    pub fn zero() -> (r: Fixed)
        ensures
            r.raw == 0,
    {
        Fixed { raw: 0 }
    }

    pub fn one() -> (r: Fixed)
        ensures
            r.raw == SCALE,
    {
        Fixed { raw: SCALE }
    }

    #[verifier::when_used_as_spec(spec_add)]
    pub fn add(self, rhs: Fixed) -> (r: Fixed)
        ensures
            r == self.spec_add(rhs),
    {
        Fixed { raw: narrow(self.raw as i128 + rhs.raw as i128) }
    }

    #[verifier::when_used_as_spec(spec_sub)]
    pub fn sub(self, rhs: Fixed) -> (r: Fixed)
        ensures
            r == self.spec_sub(rhs),
    {
        Fixed { raw: narrow(self.raw as i128 - rhs.raw as i128) }
    }

    #[verifier::when_used_as_spec(spec_neg)]
    pub fn neg(self) -> (r: Fixed)
        ensures
            r == self.spec_neg(),
    {
        Fixed { raw: narrow(-(self.raw as i128)) }
    }

    #[verifier::when_used_as_spec(spec_abs)]
    pub fn abs(self) -> (r: Fixed)
        ensures
            r == self.spec_abs(),
    {
        if self.raw < 0 {
            Fixed { raw: narrow(-(self.raw as i128)) }
        } else {
            self
        }
    }

    #[verifier::when_used_as_spec(spec_mul)]
    pub fn mul(self, rhs: Fixed) -> (r: Fixed)
        ensures
            r == self.spec_mul(rhs),
    {
        let a: i128 = self.raw as i128;
        let b: i128 = rhs.raw as i128;
        assert(-0x4000_0000_0000_0000_0000_0000_0000_0000 <= a * b
            <= 0x4000_0000_0000_0000_0000_0000_0000_0000) by (nonlinear_arith)
            requires
                -0x8000_0000_0000_0000 <= a <= 0x8000_0000_0000_0000,
                -0x8000_0000_0000_0000 <= b <= 0x8000_0000_0000_0000,
        ;
        Fixed { raw: narrow(quot_wide(a * b, SCALE as i128)) }
    }

    #[verifier::when_used_as_spec(spec_div)]
    pub fn div(self, rhs: Fixed) -> (r: Fixed)
        ensures
            r == self.spec_div(rhs),
    {
        if rhs.raw != 0 {
            let scale: i128 = SCALE as i128;
            assert(scale == 1_000_000);
            Fixed { raw: narrow(quot_wide((self.raw as i128) * scale, rhs.raw as i128)) }
        } else if self.raw > 0 {
            Fixed { raw: i64::MAX }
        } else if self.raw < 0 {
            Fixed { raw: i64::MIN }
        } else {
            Fixed { raw: 0 }
        }
    }

    /// The distance of the raw value from zero, unsaturated.
    pub fn magnitude(self) -> (m: u64)
        ensures
            m == magnitude(self.raw as int),
    {
        if self.raw < 0 {
            (-(self.raw as i128)) as u64
        } else {
            self.raw as u64
        }
    }
}

} // verus!
