//! 26.6 fixed-point numbers: 26 integer bits and 6 fractional bits,
//! giving 1/64 pixel precision for outline coordinates.

use vstd::prelude::*;

verus! {

/// The number of fractional units in one whole: 2^6.
pub open spec fn one_raw() -> int {
    64
}

/// Floor division by 64 (Euclidean division, as the divisor is positive).
pub open spec fn floor64(v: int) -> int {
    v / 64
}

/// Ceiling division by 64.
pub open spec fn ceil64(v: int) -> int {
    -((-v) / 64)
}

/// Division that truncates toward zero, as Rust's `/` on signed integers does.
pub open spec fn trunc_div(a: int, b: int) -> int {
    if (a < 0) != (b < 0) {
        -(abs_int(a) / abs_int(b))
    } else {
        abs_int(a) / abs_int(b)
    }
}

/// Absolute value of a mathematical integer.
pub open spec fn abs_int(v: int) -> int {
    if v < 0 {
        -v
    } else {
        v
    }
}

/// A 26.6 fixed-point number stored in one `i32`.
#[derive(Copy, Clone, Debug, PartialEq, Eq, Structural, PartialOrd, Ord, Hash)]
pub struct F26Dot6(pub i32);

impl F26Dot6 {
    /// Fractional bits: 6.
    pub const FRAC_BITS: u32 = 6;

    /// Mask that isolates the fractional bits: 63.
    pub const FRAC_MASK: i32 = 63;

    /// One unit: 1.0 in 26.6 format.
    pub fn one() -> (r: F26Dot6)
        ensures
            r.val() == 64,
    {
        F26Dot6(64)
    }

    /// Zero.
    pub fn zero() -> (r: F26Dot6)
        ensures
            r.val() == 0,
    {
        F26Dot6(0)
    }

    /// One half: 0.5 in 26.6 format.
    pub fn half() -> (r: F26Dot6)
        ensures
            r.val() == 32,
    {
        F26Dot6(32)
    }

    /// The value as a mathematical integer in 1/64 units.
    pub open spec fn val(self) -> int {
        self.0 as int
    }

    /// Whole number to fixed point (the shift wraps when `x` lies outside ±2^25).
    pub fn from_int(x: i32) -> (r: F26Dot6)
        ensures
            r.0 == x << 6u32,
            -0x200_0000 <= x < 0x200_0000 ==> r.val() == x * 64,
    {
        proof {
            assert(-0x200_0000 <= x < 0x200_0000 ==> (x << 6u32) == x * 64) by (bit_vector);
        }
        F26Dot6(x << 6u32)
    }

    /// Drop the fraction, rounding toward negative infinity.
    pub fn to_int(self) -> (r: i32)
        ensures
            r == floor64(self.val()),
    {
        let v = self.0;
        proof {
            assert((v >> 6u32) == v / 64) by (bit_vector);
        }
        v >> 6u32
    }

    /// Round to the nearest whole number; halves round up.
    pub fn to_int_round(self) -> (r: i32)
        requires
            self.val() <= i32::MAX - 32,
        ensures
            r == floor64(self.val() + 32),
    {
        let v = self.0 + 32;
        proof {
            assert((v >> 6u32) == v / 64) by (bit_vector);
        }
        v >> 6u32
    }

    /// The fractional part, 0 to 63.
    pub fn frac(self) -> (r: i32)
        ensures
            r == self.val() % 64,
            0 <= r < 64,
    {
        let v = self.0;
        proof {
            assert((v & 63i32) == v % 64) by (bit_vector);
        }
        v & 63i32
    }

    /// Product: `(a * b) >> 6`, truncated to 32 bits.
    pub fn mul(self, other: F26Dot6) -> (r: F26Dot6)
        ensures
            r.0 == floor64(self.val() * other.val()) as i32,
            i32::MIN <= floor64(self.val() * other.val()) <= i32::MAX ==> r.val() == floor64(
                self.val() * other.val(),
            ),
    {
        let a = self.0 as i64;
        let b = other.0 as i64;
        proof {
            assert(-0x4000_0000_0000_0000 <= a * b <= 0x4000_0000_0000_0000) by (nonlinear_arith)
                requires
                    i32::MIN <= a <= i32::MAX,
                    i32::MIN <= b <= i32::MAX,
            ;
        }
        let p = a * b;
        proof {
            assert((p >> 6u32) == p / 64) by (bit_vector);
        }
        F26Dot6(#[verifier::truncate] ((p >> 6u32) as i32))
    }

    /// Quotient: `(a << 6) / b`, the division truncating toward zero, the result
    /// truncated to 32 bits.
    pub fn div(self, other: F26Dot6) -> (r: F26Dot6)
        requires
            other.0 != 0,
        ensures
            r.0 == trunc_div(self.val() * 64, other.val()) as i32,
            i32::MIN <= trunc_div(self.val() * 64, other.val()) <= i32::MAX ==> r.val()
                == trunc_div(self.val() * 64, other.val()),
    {
        let a = self.0 as i64;
        let b = other.0 as i64;
        proof {
            assert((a << 6u32) == a * 64) by (bit_vector)
                requires
                    i32::MIN <= a <= i32::MAX,
            ;
        }
        let n = a << 6u32;
        let un: u64 = if n < 0 { (-n) as u64 } else { n as u64 };
        let ub: u64 = if b < 0 { (-b) as u64 } else { b as u64 };
        let uq = un / ub;
        proof {
            assert(uq <= un);
        }
        let q: i64 = if (n < 0) != (b < 0) { -(uq as i64) } else { uq as i64 };
        F26Dot6(#[verifier::truncate] (q as i32))
    }

    /// Absolute value.
    pub fn abs(self) -> (r: F26Dot6)
        requires
            self.0 != i32::MIN,
        ensures
            r.val() == (if self.val() < 0 {
                -self.val()
            } else {
                self.val()
            }),
    {
        if self.0 < 0 {
            F26Dot6(-self.0)
        } else {
            self
        }
    }

    /// Round down to a whole number.
    pub fn floor(self) -> (r: F26Dot6)
        ensures
            r.val() == floor64(self.val()) * 64,
    {
        let v = self.0;
        proof {
            assert((v & !63i32) == (v / 64) * 64) by (bit_vector);
        }
        F26Dot6(v & !63i32)
    }

    /// Round up to a whole number.
    pub fn ceil(self) -> (r: F26Dot6)
        requires
            self.val() % 64 == 0 || self.val() <= i32::MAX - 63,
        ensures
            r.val() == ceil64(self.val()) * 64,
    {
        let v = self.0;
        proof {
            assert((v & 63i32) == v % 64) by (bit_vector);
            assert((v & !63i32) == (v / 64) * 64) by (bit_vector);
        }
        if v & 63i32 == 0 {
            self
        } else {
            F26Dot6((v & !63i32) + 64)
        }
    }

    /// The raw 32-bit representation.
    pub fn raw(self) -> (r: i32)
        ensures
            r == self.0,
    {
        self.0
    }

    /// Build from a raw 32-bit representation.
    pub fn from_raw(raw: i32) -> (r: F26Dot6)
        ensures
            r.0 == raw,
    {
        F26Dot6(raw)
    }
}

impl core::ops::Add for F26Dot6 {
    type Output = F26Dot6;

    fn add(self, other: F26Dot6) -> (r: F26Dot6) {
        F26Dot6(self.0 + other.0)
    }
}

impl vstd::std_specs::ops::AddSpecImpl for F26Dot6 {
    open spec fn obeys_add_spec() -> bool {
        true
    }

    open spec fn add_req(self, rhs: F26Dot6) -> bool {
        i32::MIN <= self.0 + rhs.0 <= i32::MAX
    }

    open spec fn add_spec(self, rhs: F26Dot6) -> F26Dot6 {
        F26Dot6((self.0 + rhs.0) as i32)
    }
}

impl core::ops::Sub for F26Dot6 {
    type Output = F26Dot6;

    fn sub(self, other: F26Dot6) -> (r: F26Dot6) {
        F26Dot6(self.0 - other.0)
    }
}

impl vstd::std_specs::ops::SubSpecImpl for F26Dot6 {
    open spec fn obeys_sub_spec() -> bool {
        true
    }

    open spec fn sub_req(self, rhs: F26Dot6) -> bool {
        i32::MIN <= self.0 - rhs.0 <= i32::MAX
    }

    open spec fn sub_spec(self, rhs: F26Dot6) -> F26Dot6 {
        F26Dot6((self.0 - rhs.0) as i32)
    }
}

impl core::ops::Neg for F26Dot6 {
    type Output = F26Dot6;

    fn neg(self) -> (r: F26Dot6) {
        F26Dot6(-self.0)
    }
}

impl vstd::std_specs::ops::NegSpecImpl for F26Dot6 {
    open spec fn obeys_neg_spec() -> bool {
        true
    }

    open spec fn neg_req(self) -> bool {
        self.0 != i32::MIN
    }

    open spec fn neg_spec(self) -> F26Dot6 {
        F26Dot6((-self.0) as i32)
    }
}

impl From<i32> for F26Dot6 {
    fn from(x: i32) -> (r: F26Dot6) {
        F26Dot6::from_int(x)
    }
}

impl vstd::std_specs::convert::FromSpecImpl<i32> for F26Dot6 {
    open spec fn obeys_from_spec() -> bool {
        true
    }

    open spec fn from_spec(x: i32) -> F26Dot6 {
        F26Dot6(x << 6u32)
    }
}

} // verus!
