//! Deterministic unsigned fixed-point arithmetic with 64 integer and 64
//! fractional bits.
//!
//! All money math in the engine runs on this type so that identical inputs
//! produce identical billed amounts bit for bit on every platform. A value
//! `v` is represented by the raw integer `v * 2^64` and every operation
//! states its exact effect on the raw representation, with truncation
//! (rounding toward zero) where a division cannot be exact.

use vstd::prelude::*;

verus! {

/// The raw representation of a fixed-point value `v` is `v * SCALE`.
pub const SCALE: u128 = 0x1_0000_0000_0000_0000;

/// Unsigned fixed-point number with 64 integer and 64 fractional bits.
#[derive(Clone, Copy, PartialEq, Eq, Structural, Debug)]
pub struct Fixed {
    pub raw: u128,
}

/// The smallest integer at least as large as the value represented by `raw`.
pub open spec fn ceil_units(raw: int) -> int {
    if raw % (SCALE as int) == 0 {
        raw / (SCALE as int)
    } else {
        raw / (SCALE as int) + 1
    }
}

/// Raw representation of the product of two fixed-point values: the exact
/// product of the raw integers, scaled back down with truncation.
pub open spec fn mul_raw(a: int, b: int) -> int {
    (a * b) / (SCALE as int)
}

impl Fixed {
    /// The whole number `x` as a fixed-point value.
    pub fn from_u64(x: u64) -> (r: Fixed)
        ensures
            r.raw == x * SCALE,
    {
        proof {
            vstd::arithmetic::mul::lemma_mul_inequality(x as int, u64::MAX as int, SCALE as int);
        }
        Fixed { raw: (x as u128) * SCALE }
    }

    /// Exact division by a positive whole number, truncating at the last
    /// fractional bit.
    pub fn div_int(self, d: u128) -> (r: Fixed)
        requires
            d > 0,
        ensures
            r.raw == self.raw as int / d as int,
    {
        Fixed { raw: self.raw / d }
    }

    /// Exact multiplication by a whole number.
    pub fn mul_int(self, k: u128) -> (r: Fixed)
        requires
            self.raw * k <= u128::MAX,
        ensures
            r.raw == self.raw * k,
    {
        Fixed { raw: self.raw * k }
    }

    /// Exact addition.
    pub fn add(self, o: Fixed) -> (r: Fixed)
        requires
            self.raw + o.raw <= u128::MAX,
        ensures
            r.raw == self.raw + o.raw,
    {
        Fixed { raw: self.raw + o.raw }
    }

    /// Exact subtraction; the argument must not exceed `self`.
    pub fn sub(self, o: Fixed) -> (r: Fixed)
        requires
            o.raw <= self.raw,
        ensures
            r.raw == self.raw - o.raw,
    {
        Fixed { raw: self.raw - o.raw }
    }

    /// Strict comparison of two fixed-point values.
    pub fn gt(self, o: Fixed) -> (r: bool)
        ensures
            r == (self.raw > o.raw),
    {
        self.raw > o.raw
    }

    /// Fixed-point multiplication, truncating at the last fractional bit.
    ///
    /// The product of the raw integers is formed over 64-bit limbs so that
    /// no intermediate exceeds 128 bits; the result is exactly
    /// `(self.raw * o.raw) / SCALE`.
    pub fn mul(self, o: Fixed) -> (r: Fixed)
        requires
            mul_raw(self.raw as int, o.raw as int) <= u128::MAX,
        ensures
            r.raw == mul_raw(self.raw as int, o.raw as int),
    {
        let s: u128 = SCALE;
        let ah: u128 = self.raw / s;
        let al: u128 = self.raw % s;
        let bh: u128 = o.raw / s;
        let bl: u128 = o.raw % s;
        proof {
            lemma_limb_identity(self.raw as int, o.raw as int);
        }
        let low: u128 = (al * bl) / s;
        let hh: u128 = ah * bh;
        Fixed { raw: hh * s + ah * bl + al * bh + low }
    }

    /// The value rounded up to the next whole number.
    pub fn ceil_u64(self) -> (r: u64)
        requires
            ceil_units(self.raw as int) <= u64::MAX,
        ensures
            r == ceil_units(self.raw as int),
    {
        let q: u128 = self.raw / SCALE;
        let rem: u128 = self.raw % SCALE;
        if rem == 0 {
            q as u64
        } else {
            (q + 1) as u64
        }
    }

    /// Multiplication by a whole number, detecting overflow of the raw
    /// representation at run time.
    pub fn checked_mul_int(self, k: u128) -> (r: Option<Fixed>)
        ensures
            self.raw * k <= u128::MAX ==> r == Some(Fixed { raw: (self.raw * k) as u128 }),
            self.raw * k > u128::MAX ==> r is None,
    {
        if k == 0 {
            Some(Fixed { raw: 0 })
        } else if self.raw <= u128::MAX / k {
            proof {
                vstd::arithmetic::mul::lemma_mul_inequality(
                    self.raw as int,
                    (u128::MAX / k) as int,
                    k as int,
                );
                vstd::arithmetic::div_mod::lemma_fundamental_div_mod(u128::MAX as int, k as int);
                vstd::arithmetic::div_mod::lemma_mod_division_less_than_divisor(
                    u128::MAX as int,
                    k as int,
                );
            }
            Some(Fixed { raw: self.raw * k })
        } else {
            proof {
                lemma_mul_div_bound(self.raw as int, k as int, u128::MAX as int);
            }
            None
        }
    }

    /// Addition, detecting overflow of the raw representation at run time.
    pub fn checked_add(self, o: Fixed) -> (r: Option<Fixed>)
        ensures
            self.raw + o.raw <= u128::MAX ==> r == Some(Fixed { raw: (self.raw + o.raw) as u128 }),
            self.raw + o.raw > u128::MAX ==> r is None,
    {
        if self.raw <= u128::MAX - o.raw {
            Some(Fixed { raw: self.raw + o.raw })
        } else {
            None
        }
    }

    /// Fixed-point multiplication, detecting overflow of the raw
    /// representation at run time.
    pub fn checked_mul(self, o: Fixed) -> (r: Option<Fixed>)
        ensures
            mul_raw(self.raw as int, o.raw as int) <= u128::MAX ==> r == Some(
                Fixed { raw: mul_raw(self.raw as int, o.raw as int) as u128 },
            ),
            mul_raw(self.raw as int, o.raw as int) > u128::MAX ==> r is None,
    {
        let s: u128 = SCALE;
        let ah: u128 = self.raw / s;
        let al: u128 = self.raw % s;
        let bh: u128 = o.raw / s;
        let bl: u128 = o.raw % s;
        proof {
            lemma_limb_identity(self.raw as int, o.raw as int);
        }
        let low: u128 = (al * bl) / s;
        let hh: u128 = ah * bh;
        if hh > u128::MAX / s {
            proof {
                lemma_mul_div_bound(hh as int, s as int, u128::MAX as int);
            }
            return None;
        }
        proof {
            vstd::arithmetic::mul::lemma_mul_inequality(hh as int, (u128::MAX / s) as int, s as int);
            vstd::arithmetic::div_mod::lemma_fundamental_div_mod(u128::MAX as int, s as int);
            vstd::arithmetic::div_mod::lemma_mod_division_less_than_divisor(u128::MAX as int, s as int);
        }
        let t1: u128 = hh * s;
        let p1: u128 = ah * bl;
        if t1 > u128::MAX - p1 {
            return None;
        }
        let t2: u128 = t1 + p1;
        let p2: u128 = al * bh;
        if t2 > u128::MAX - p2 {
            return None;
        }
        let t3: u128 = t2 + p2;
        if t3 > u128::MAX - low {
            return None;
        }
        Some(Fixed { raw: t3 + low })
    }

    /// The value rounded up to the next whole number, detecting results
    /// beyond `u64::MAX` at run time.
    pub fn checked_ceil_u64(self) -> (r: Option<u64>)
        ensures
            ceil_units(self.raw as int) <= u64::MAX ==> r == Some(
                ceil_units(self.raw as int) as u64,
            ),
            ceil_units(self.raw as int) > u64::MAX ==> r is None,
    {
        let q: u128 = self.raw / SCALE;
        let rem: u128 = self.raw % SCALE;
        if rem == 0 {
            Some(q as u64)
        } else if q < 0xffff_ffff_ffff_ffff {
            Some((q + 1) as u64)
        } else {
            None
        }
    }
}

/// If `a * k` stays within `bound`, then `a` is at most `bound / k`.
proof fn lemma_mul_div_bound(a: int, k: int, bound: int)
    requires
        0 <= a,
        0 < k,
        0 <= bound,
        a > bound / k,
    ensures
        a * k > bound,
{
    vstd::arithmetic::div_mod::lemma_fundamental_div_mod(bound, k);
    vstd::arithmetic::div_mod::lemma_mod_division_less_than_divisor(bound, k);
    assert(a * k >= (bound / k + 1) * k) by (nonlinear_arith)
        requires
            a >= bound / k + 1,
            0 < k,
    ;
    assert((bound / k + 1) * k > bound) by (nonlinear_arith)
        requires
            bound == (bound / k) * k + bound % k,
            bound % k < k,
    ;
}

/// Decomposing two raw values into 64-bit limbs expresses their scaled
/// product as a sum of in-range limb products.
proof fn lemma_limb_identity(a: int, b: int)
    requires
        0 <= a <= u128::MAX,
        0 <= b <= u128::MAX,
    ensures
        ({
            let s = SCALE as int;
            let ah = a / s;
            let al = a % s;
            let bh = b / s;
            let bl = b % s;
            &&& 0 <= ah < s && 0 <= al < s && 0 <= bh < s && 0 <= bl < s
            &&& 0 <= al * bl <= u128::MAX
            &&& 0 <= ah * bl <= u128::MAX
            &&& 0 <= al * bh <= u128::MAX
            &&& 0 <= ah * bh <= u128::MAX
            &&& 0 <= (al * bl) / s < s
            &&& 0 <= (ah * bh) * s
            &&& (ah * bh) * s + ah * bl + al * bh + (al * bl) / s == (a * b) / s
        }),
{
    let s = SCALE as int;
    let ah = a / s;
    let al = a % s;
    let bh = b / s;
    let bl = b % s;
    vstd::arithmetic::div_mod::lemma_fundamental_div_mod(a, s);
    vstd::arithmetic::div_mod::lemma_fundamental_div_mod(b, s);
    vstd::arithmetic::div_mod::lemma_mod_division_less_than_divisor(a, s);
    vstd::arithmetic::div_mod::lemma_mod_division_less_than_divisor(b, s);
    vstd::arithmetic::div_mod::lemma_div_pos_is_pos(a, s);
    vstd::arithmetic::div_mod::lemma_div_pos_is_pos(b, s);
    assert(ah < s) by {
        vstd::arithmetic::div_mod::lemma_div_is_ordered(a, u128::MAX as int, s);
    };
    assert(bh < s) by {
        vstd::arithmetic::div_mod::lemma_div_is_ordered(b, u128::MAX as int, s);
    };
    assert(al * bl <= (s - 1) * (s - 1)) by {
        vstd::arithmetic::mul::lemma_mul_upper_bound(al, s - 1, bl, s - 1);
    };
    assert(ah * bl <= (s - 1) * (s - 1)) by {
        vstd::arithmetic::mul::lemma_mul_upper_bound(ah, s - 1, bl, s - 1);
    };
    assert(al * bh <= (s - 1) * (s - 1)) by {
        vstd::arithmetic::mul::lemma_mul_upper_bound(al, s - 1, bh, s - 1);
    };
    assert(ah * bh <= (s - 1) * (s - 1)) by {
        vstd::arithmetic::mul::lemma_mul_upper_bound(ah, s - 1, bh, s - 1);
    };
    assert(0 <= al * bl && 0 <= ah * bl && 0 <= al * bh && 0 <= ah * bh) by (nonlinear_arith)
        requires
            0 <= ah && 0 <= al && 0 <= bh && 0 <= bl,
    ;
    assert(0 <= (ah * bh) * s) by (nonlinear_arith)
        requires
            0 <= ah * bh && 0 < s,
    ;
    // Expand the product over the limbs.
    assert(a * b == ((ah * bh) * s + ah * bl + al * bh) * s + al * bl) by (nonlinear_arith)
        requires
            a == ah * s + al,
            b == bh * s + bl,
    ;
    assert(0 <= (ah * bh) * s + ah * bl + al * bh) by (nonlinear_arith)
        requires
            0 <= ah && 0 <= al && 0 <= bh && 0 <= bl && 0 < s,
    ;
    let q = (ah * bh) * s + ah * bl + al * bh;
    assert(0 <= al * bl < s * s) by (nonlinear_arith)
        requires
            0 <= al < s,
            0 <= bl < s,
    ;
    // (q * s + al * bl) / s == q + (al * bl) / s, by uniqueness of division.
    vstd::arithmetic::div_mod::lemma_fundamental_div_mod(al * bl, s);
    let lq = (al * bl) / s;
    let lr = (al * bl) % s;
    vstd::arithmetic::div_mod::lemma_mod_division_less_than_divisor(al * bl, s);
    vstd::arithmetic::div_mod::lemma_div_pos_is_pos(al * bl, s);
    assert(a * b == (q + lq) * s + lr) by (nonlinear_arith)
        requires
            a * b == q * s + al * bl,
            al * bl == lq * s + lr,
    ;
    vstd::arithmetic::div_mod::lemma_fundamental_div_mod_converse(a * b, s, q + lq, lr);
    assert((a * b) / s == q + lq);
    assert(lq < s);
}

} // verus!
