//! Saturating binary fixed-point scalars.
//!
//! A [`Fixed`] holds a raw `i64` count of 1/65536 steps, kept within
//! `[-RAW_BOUND, RAW_BOUND]` by every operation.  Arithmetic is exact in the
//! sense that each operation's result is pinned by an integer specification:
//! multiplication and division round toward zero, and any result outside the
//! representable range saturates at the bound, the way infinities behave for
//! hardware floating point.

use vstd::prelude::*;

verus! {

/// Raw steps per unit: a scalar with raw value `r` represents `r / 65536`.
pub const SCALE: i64 = 65536;

/// Largest raw magnitude a scalar may hold; operations saturate here.
pub const RAW_BOUND: i64 = 17592186044416;

/// Magnitude of an unbounded integer.
pub open spec fn iabs(x: int) -> int {
    if x < 0 {
        -x
    } else {
        x
    }
}

/// Saturate an unbounded integer into the representable raw range.
pub open spec fn clip(x: int) -> int {
    if x > RAW_BOUND as int {
        RAW_BOUND as int
    } else if x < -(RAW_BOUND as int) {
        -(RAW_BOUND as int)
    } else {
        x
    }
}

/// Quotient of `n` by `d` rounded toward zero; meaningful only for `d != 0`.
pub open spec fn sdiv(n: int, d: int) -> int {
    let q = iabs(n) / iabs(d);
    if (n < 0) != (d < 0) {
        -q
    } else {
        q
    }
}

/// Raw value of a fixed-point sum.
pub open spec fn add_v(a: int, b: int) -> int {
    clip(a + b)
}

/// Raw value of a fixed-point difference.
pub open spec fn sub_v(a: int, b: int) -> int {
    clip(a - b)
}

/// Raw value of a fixed-point product: scale the integer product back down,
/// rounding toward zero.
pub open spec fn mul_v(a: int, b: int) -> int {
    clip(sdiv(a * b, SCALE as int))
}

/// Raw value of a fixed-point quotient.  Division by zero saturates to the
/// signed bound (zero for a zero numerator), the fixed-point analogue of the
/// infinities a float division would produce.
pub open spec fn div_v(a: int, b: int) -> int {
    if b == 0 {
        if a > 0 {
            RAW_BOUND as int
        } else if a < 0 {
            -(RAW_BOUND as int)
        } else {
            0
        }
    } else {
        clip(sdiv(a * SCALE, b))
    }
}

/// Integer square root: the greatest `r >= 0` with `r * r <= n` (zero for
/// negative `n`).
pub open spec fn isqrt(n: int) -> int
    decreases n,
{
    if n < 1 {
        0
    } else {
        let r = 2 * isqrt(n / 4);
        if (r + 1) * (r + 1) <= n {
            r + 1
        } else {
            r
        }
    }
}

/// `isqrt` indeed brackets its argument between consecutive squares.
pub proof fn lemma_isqrt(n: int)
    requires
        n >= 0,
    ensures
        isqrt(n) >= 0,
        isqrt(n) * isqrt(n) <= n,
        n < (isqrt(n) + 1) * (isqrt(n) + 1),
    decreases n,
{
    if n < 1 {
    } else {
        lemma_isqrt(n / 4);
        let s = isqrt(n / 4);
        let r = 2 * s;
        assert(4 * (n / 4) <= n < 4 * (n / 4) + 4);
        assert(r * r <= n && n < (r + 2) * (r + 2)) by (nonlinear_arith)
            requires
                s >= 0,
                s * s <= n / 4,
                n / 4 < (s + 1) * (s + 1),
                4 * (n / 4) <= n < 4 * (n / 4) + 4,
                r == 2 * s,
        ;
    }
}

/// The square-root bracket pins its value down uniquely.
pub proof fn lemma_isqrt_unique(n: int, r: int)
    requires
        0 <= r,
        r * r <= n,
        n < (r + 1) * (r + 1),
    ensures
        r == isqrt(n),
{
    lemma_isqrt(n);
    let s = isqrt(n);
    assert(r == s) by (nonlinear_arith)
        requires
            r >= 0,
            s >= 0,
            r * r <= n,
            n < (r + 1) * (r + 1),
            s * s <= n,
            n < (s + 1) * (s + 1),
    ;
}

/// Raw value of a fixed-point square root: zero for non-positive input.
pub open spec fn sqrt_v(a: int) -> int {
    if a <= 0 {
        0
    } else {
        isqrt(a * SCALE)
    }
}

/// A fixed-point square root is never negative.
pub proof fn lemma_sqrt_v_nonneg(a: int)
    ensures
        sqrt_v(a) >= 0,
{
    if a > 0 {
        lemma_isqrt(a * SCALE);
    }
}

/// Fixed-point division by a positive value is monotone in the numerator.
pub proof fn lemma_div_v_monotone(x: int, y: int, a: int)
    requires
        x <= y,
        a > 0,
    ensures
        div_v(x, a) <= div_v(y, a),
{
    let nx = x * SCALE;
    let ny = y * SCALE;
    assert(nx <= ny);
    if nx >= 0 {
        vstd::arithmetic::div_mod::lemma_div_is_ordered(nx, ny, a);
    } else if ny < 0 {
        vstd::arithmetic::div_mod::lemma_div_is_ordered(-ny, -nx, a);
    } else {
        vstd::arithmetic::div_mod::lemma_div_is_ordered(0, ny, a);
        vstd::arithmetic::div_mod::lemma_div_is_ordered(0, -nx, a);
    }
}

/// A saturating fixed-point scalar.
#[derive(Clone, Copy, Debug, PartialEq, Eq, Structural)]
pub struct Fixed {
    raw: i64,
}

impl Fixed {
    /// The raw value as a mathematical integer; all contracts speak of this.
    pub closed spec fn val(self) -> int {
        self.raw as int
    }

    /// Every constructed scalar satisfies this; recover it on an exec value
    /// with `use_type_invariant`.
    #[verifier::type_invariant]
    pub open spec fn bounded(self) -> bool {
        -(RAW_BOUND as int) <= self.val() <= RAW_BOUND as int
    }

    /// Build a scalar from a raw step count, saturating it into range.
    pub fn from_raw(raw: i64) -> (r: Fixed)
        ensures
            r.val() == clip(raw as int),
    {
        if raw > RAW_BOUND {
            Fixed { raw: RAW_BOUND }
        } else if raw < -RAW_BOUND {
            Fixed { raw: -RAW_BOUND }
        } else {
            Fixed { raw }
        }
    }

    /// Build a scalar holding the integer `i`, saturating it into range.
    pub fn from_int(i: i64) -> (r: Fixed)
        ensures
            r.val() == clip(i * SCALE),
    {
        let wide: i128 = (i as i128) * (SCALE as i128);
        if wide > RAW_BOUND as i128 {
            Fixed { raw: RAW_BOUND }
        } else if wide < -(RAW_BOUND as i128) {
            Fixed { raw: -RAW_BOUND }
        } else {
            Fixed { raw: wide as i64 }
        }
    }

    /// The zero scalar.
    pub fn zero() -> (r: Fixed)
        ensures
            r.val() == 0,
    {
        Fixed { raw: 0 }
    }

    /// The unit scalar.
    pub fn one() -> (r: Fixed)
        ensures
            r.val() == SCALE as int,
    {
        Fixed { raw: SCALE }
    }

    /// The raw step count.
    pub fn raw(self) -> (r: i64)
        ensures
            r as int == self.val(),
    {
        self.raw
    }

    /// Saturating sum.
    pub fn add(self, o: Fixed) -> (r: Fixed)
        ensures
            r.val() == add_v(self.val(), o.val()),
    {
        proof {
            use_type_invariant(self);
            use_type_invariant(o);
        }
        let s: i64 = self.raw + o.raw;
        Fixed::from_raw(s)
    }

    /// Saturating difference.
    pub fn sub(self, o: Fixed) -> (r: Fixed)
        ensures
            r.val() == sub_v(self.val(), o.val()),
    {
        proof {
            use_type_invariant(self);
            use_type_invariant(o);
        }
        let s: i64 = self.raw - o.raw;
        Fixed::from_raw(s)
    }

    /// Exact negation (the representable range is symmetric).
    pub fn neg(self) -> (r: Fixed)
        ensures
            r.val() == -self.val(),
    {
        proof {
            use_type_invariant(self);
        }
        Fixed { raw: -self.raw }
    }

    /// Exact magnitude.
    pub fn abs(self) -> (r: Fixed)
        ensures
            r.val() == iabs(self.val()),
    {
        proof {
            use_type_invariant(self);
        }
        if self.raw < 0 {
            Fixed { raw: -self.raw }
        } else {
            self
        }
    }

    /// Saturating product, rounded toward zero.
    pub fn mul(self, o: Fixed) -> (r: Fixed)
        ensures
            r.val() == mul_v(self.val(), o.val()),
    {
        proof {
            use_type_invariant(self);
            use_type_invariant(o);
        }
        let ghost a: int = self.val();
        let ghost b: int = o.val();
        proof {
            assert(iabs(a * b) <= 309485009821345068724781056int) by (nonlinear_arith)
                requires
                    iabs(a) <= RAW_BOUND as int,
                    iabs(b) <= RAW_BOUND as int,
                    RAW_BOUND as int == 17592186044416int,
            ;
        }
        let p: i128 = (self.raw as i128) * (o.raw as i128);
        let neg: bool = p < 0;
        let mag: u128 = if neg {
            (-p) as u128
        } else {
            p as u128
        };
        let q: u128 = mag / (SCALE as u128);
        let signed: i128 = if neg {
            -(q as i128)
        } else {
            q as i128
        };
        proof {
            assert(mag as int == iabs(a * b));
            assert(signed as int == sdiv(a * b, SCALE as int));
        }
        if signed > RAW_BOUND as i128 {
            Fixed { raw: RAW_BOUND }
        } else if signed < -(RAW_BOUND as i128) {
            Fixed { raw: -RAW_BOUND }
        } else {
            Fixed { raw: signed as i64 }
        }
    }

    /// Saturating quotient, rounded toward zero; division by zero saturates
    /// to the signed bound.
    pub fn div(self, o: Fixed) -> (r: Fixed)
        ensures
            r.val() == div_v(self.val(), o.val()),
    {
        proof {
            use_type_invariant(self);
            use_type_invariant(o);
        }
        if o.raw == 0 {
            if self.raw > 0 {
                Fixed { raw: RAW_BOUND }
            } else if self.raw < 0 {
                Fixed { raw: -RAW_BOUND }
            } else {
                Fixed { raw: 0 }
            }
        } else {
            let ghost a: int = self.val();
            let ghost b: int = o.val();
            let neg: bool = (self.raw < 0) != (o.raw < 0);
            let num: u128 = if self.raw < 0 {
                (-(self.raw as i128)) as u128
            } else {
                self.raw as u128
            };
            let den: u128 = if o.raw < 0 {
                (-(o.raw as i128)) as u128
            } else {
                o.raw as u128
            };
            proof {
                assert(num as int == iabs(a) && iabs(a) <= RAW_BOUND as int);
            }
            let scaled: u128 = num * 65536u128;
            let q: u128 = scaled / den;
            proof {
                assert(scaled as int == iabs(a * SCALE));
                vstd::arithmetic::div_mod::lemma_div_is_ordered_by_denominator(
                    scaled as int,
                    1,
                    den as int,
                );
            }
            let signed: i128 = if neg {
                -(q as i128)
            } else {
                q as i128
            };
            proof {
                assert(signed as int == sdiv(a * SCALE, b));
            }
            if signed > RAW_BOUND as i128 {
                Fixed { raw: RAW_BOUND }
            } else if signed < -(RAW_BOUND as i128) {
                Fixed { raw: -RAW_BOUND }
            } else {
                Fixed { raw: signed as i64 }
            }
        }
    }

    /// Fixed-point square root, rounded down; non-positive inputs give zero.
    pub fn sqrt(self) -> (r: Fixed)
        ensures
            r.val() == sqrt_v(self.val()),
    {
        proof {
            use_type_invariant(self);
        }
        if self.raw <= 0 {
            return Fixed { raw: 0 };
        }
        let m: u128 = (self.raw as u128) * 65536u128;
        let mut lo: u128 = 0;
        let mut hi: u128 = 2147483648;
        proof {
            assert(2147483648u128 * 2147483648u128 > m) by (nonlinear_arith)
                requires
                    m <= 17592186044416u128 * 65536u128,
            ;
        }
        while lo + 1 < hi
            invariant
                (lo * lo) as int <= m as int,
                (m as int) < (hi * hi) as int,
                lo < hi <= 2147483648,
            decreases hi - lo,
        {
            let mid: u128 = (lo + hi) / 2;
            proof {
                assert(mid * mid <= 2147483648u128 * 2147483648u128) by (nonlinear_arith)
                    requires
                        mid <= 2147483648u128,
                ;
            }
            if mid * mid <= m {
                lo = mid;
            } else {
                hi = mid;
            }
        }
        proof {
            assert((m as int) < (lo + 1) * (lo + 1));
            lemma_isqrt_unique(m as int, lo as int);
            assert(lo as int <= 1073741824int) by (nonlinear_arith)
                requires
                    (lo * lo) as int <= m as int,
                    m as int <= 1152921504606846976int,
            ;
        }
        Fixed { raw: lo as i64 }
    }

    /// Is this exactly zero?
    pub fn is_zero(self) -> (r: bool)
        ensures
            r == (self.val() == 0),
    {
        self.raw == 0
    }

    /// Exact comparison: strictly less.
    pub fn lt(self, o: Fixed) -> (r: bool)
        ensures
            r == (self.val() < o.val()),
    {
        self.raw < o.raw
    }

    /// Exact comparison: less or equal.
    pub fn le(self, o: Fixed) -> (r: bool)
        ensures
            r == (self.val() <= o.val()),
    {
        self.raw <= o.raw
    }

    /// The smaller of two scalars.
    pub fn min(self, o: Fixed) -> (r: Fixed)
        ensures
            r.val() == if self.val() <= o.val() {
                self.val()
            } else {
                o.val()
            },
    {
        if self.raw <= o.raw {
            self
        } else {
            o
        }
    }

    /// The larger of two scalars.
    pub fn max(self, o: Fixed) -> (r: Fixed)
        ensures
            r.val() == if self.val() >= o.val() {
                self.val()
            } else {
                o.val()
            },
    {
        if self.raw >= o.raw {
            self
        } else {
            o
        }
    }
}

} // verus!
