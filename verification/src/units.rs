//! Unit newtypes and text magnification.
use vstd::prelude::*;
use vstd::std_specs::ops::{AddSpecImpl, DivSpecImpl, MulSpecImpl, NegSpecImpl, SubSpecImpl};

verus! {

/// An index into a decoded stream. Never a time axis; see [`Timestamp`].
#[derive(Clone, Copy, Debug, Default, PartialEq, Eq, PartialOrd, Ord, Hash, Structural)]
pub struct FrameIdx(pub u64);

/// A wall-clock instant in nanoseconds, the axis every stream shares.
#[derive(Clone, Copy, Debug, Default, PartialEq, PartialOrd, Structural)]
pub struct Timestamp(pub i64);

impl Timestamp {
    /// The zero instant.
    pub fn zero() -> (t: Timestamp)
        ensures
            t.0 == 0,
    {
        Timestamp(0)
    }

    /// Unwrap to the raw nanoseconds.
    pub fn get(self) -> (v: i64)
        ensures
            v == self.0,
    {
        self.0
    }
}

/// Rust's `/` on integers: the quotient rounded toward zero.
pub open spec fn div_toward_zero(a: int, b: int) -> int {
    let q = (if a >= 0 {
        a
    } else {
        -a
    }) / (if b >= 0 {
        b
    } else {
        -b
    });
    if (a >= 0) == (b > 0) {
        q
    } else {
        -q
    }
}

impl core::ops::Add for Timestamp {
    type Output = Timestamp;

    fn add(self, rhs: Timestamp) -> (t: Timestamp) {
        Timestamp(self.0 + rhs.0)
    }
}

impl AddSpecImpl for Timestamp {
    open spec fn obeys_add_spec() -> bool {
        true
    }

    open spec fn add_req(self, rhs: Timestamp) -> bool {
        i64::MIN <= self.0 + rhs.0 <= i64::MAX
    }

    open spec fn add_spec(self, rhs: Timestamp) -> Timestamp {
        Timestamp((self.0 + rhs.0) as i64)
    }
}

impl core::ops::Sub for Timestamp {
    type Output = Timestamp;

    fn sub(self, rhs: Timestamp) -> (t: Timestamp) {
        Timestamp(self.0 - rhs.0)
    }
}

impl SubSpecImpl for Timestamp {
    open spec fn obeys_sub_spec() -> bool {
        true
    }

    open spec fn sub_req(self, rhs: Timestamp) -> bool {
        i64::MIN <= self.0 - rhs.0 <= i64::MAX
    }

    open spec fn sub_spec(self, rhs: Timestamp) -> Timestamp {
        Timestamp((self.0 - rhs.0) as i64)
    }
}

impl core::ops::Neg for Timestamp {
    type Output = Timestamp;

    fn neg(self) -> (t: Timestamp) {
        Timestamp(-self.0)
    }
}

impl NegSpecImpl for Timestamp {
    open spec fn obeys_neg_spec() -> bool {
        true
    }

    open spec fn neg_req(self) -> bool {
        self.0 != i64::MIN
    }

    open spec fn neg_spec(self) -> Timestamp {
        Timestamp((-self.0) as i64)
    }
}

impl core::ops::Mul<i64> for Timestamp {
    type Output = Timestamp;

    fn mul(self, rhs: i64) -> (t: Timestamp) {
        Timestamp(self.0 * rhs)
    }
}

impl MulSpecImpl<i64> for Timestamp {
    open spec fn obeys_mul_spec() -> bool {
        true
    }

    open spec fn mul_req(self, rhs: i64) -> bool {
        i64::MIN <= self.0 * rhs <= i64::MAX
    }

    open spec fn mul_spec(self, rhs: i64) -> Timestamp {
        Timestamp((self.0 * rhs) as i64)
    }
}

impl core::ops::Div<i64> for Timestamp {
    type Output = Timestamp;

    fn div(self, rhs: i64) -> (t: Timestamp) {
        let a = self.0;
        let ua: u64 = if a >= 0 {
            a as u64
        } else if a == i64::MIN {
            0x8000_0000_0000_0000u64
        } else {
            (-a) as u64
        };
        let ub: u64 = if rhs >= 0 {
            rhs as u64
        } else if rhs == i64::MIN {
            0x8000_0000_0000_0000u64
        } else {
            (-rhs) as u64
        };
        let q = ua / ub;
        assert(q <= ua) by (nonlinear_arith)
            requires
                ub >= 1,
                q == ua / ub,
        ;
        if (a >= 0) == (rhs > 0) {
            assert(q <= i64::MAX) by (nonlinear_arith)
                requires
                    ub >= 1,
                    q == ua / ub,
                    ua <= 0x8000_0000_0000_0000u64,
                    ua == 0x8000_0000_0000_0000u64 ==> ub >= 2,
            ;
            Timestamp(q as i64)
        } else {
            if q == 0x8000_0000_0000_0000u64 {
                Timestamp(i64::MIN)
            } else {
                Timestamp(-(q as i64))
            }
        }
    }
}

impl DivSpecImpl<i64> for Timestamp {
    open spec fn obeys_div_spec() -> bool {
        true
    }

    open spec fn div_req(self, rhs: i64) -> bool {
        rhs != 0 && !(self.0 == i64::MIN && rhs == -1)
    }

    open spec fn div_spec(self, rhs: i64) -> Timestamp {
        Timestamp(div_toward_zero(self.0 as int, rhs as int) as i64)
    }
}

/// Timestamps add and subtract as nanosecond counts: adding is
/// commutative, adding nothing changes nothing, one nanosecond more is the
/// next count, and subtracting what was added gives the start back.
pub proof fn lemma_add_sub_are_inverse(t: Timestamp, u: Timestamp)
    requires
        i64::MIN <= t.0 + u.0 <= i64::MAX,
    ensures
        vstd::std_specs::ops::AddSpec::add_spec(t, u) == vstd::std_specs::ops::AddSpec::add_spec(u, t),
        vstd::std_specs::ops::AddSpec::add_spec(t, Timestamp(0)) == t,
        vstd::std_specs::ops::SubSpec::sub_spec(t, t) == Timestamp(0),
        vstd::std_specs::ops::SubSpec::sub_spec(
            vstd::std_specs::ops::AddSpec::add_spec(t, u),
            u,
        ) == t,
        t.0 < i64::MAX ==> vstd::std_specs::ops::AddSpec::add_spec(t, Timestamp(1)).0 == t.0 + 1,
{
}

/// Negation undoes itself, and a timestamp plus its negation is zero.
pub proof fn lemma_neg_is_additive_inverse(t: Timestamp)
    requires
        t.0 != i64::MIN,
    ensures
        vstd::std_specs::ops::NegSpec::neg_spec(vstd::std_specs::ops::NegSpec::neg_spec(t)) == t,
        vstd::std_specs::ops::AddSpec::add_spec(t, vstd::std_specs::ops::NegSpec::neg_spec(t))
            == Timestamp(0),
{
}

/// Scaling a timestamp and dividing by the same factor gives it back;
/// scaling by one changes nothing and by zero gives zero.
pub proof fn lemma_mul_div_are_inverse(t: Timestamp, m: i64)
    requires
        m != 0,
        i64::MIN <= t.0 * m <= i64::MAX,
    ensures
        vstd::std_specs::ops::DivSpec::div_spec(vstd::std_specs::ops::MulSpec::mul_spec(t, m), m)
            == t,
        vstd::std_specs::ops::MulSpec::mul_spec(t, 1i64) == t,
        vstd::std_specs::ops::MulSpec::mul_spec(t, 0i64) == Timestamp(0),
        vstd::std_specs::ops::DivSpec::div_spec(t, 1i64) == t,
{
    let a = t.0 as int;
    let b = m as int;
    let p = a * b;
    let aa = if a >= 0 {
        a
    } else {
        -a
    };
    let bb = if b >= 0 {
        b
    } else {
        -b
    };
    let pp = if p >= 0 {
        p
    } else {
        -p
    };
    assert(pp == bb * aa) by (nonlinear_arith)
        requires
            p == a * b,
            aa == (if a >= 0 {
                a
            } else {
                -a
            }),
            bb == (if b >= 0 {
                b
            } else {
                -b
            }),
            pp == (if p >= 0 {
                p
            } else {
                -p
            }),
    ;
    vstd::arithmetic::div_mod::lemma_div_multiples_vanish(aa, bb);
    assert(pp / bb == aa);
    assert(a != 0 ==> ((p >= 0) == (b > 0) <==> a > 0)) by (nonlinear_arith)
        requires
            p == a * b,
            b != 0,
    ;
    assert(a * 1 == a && a * 0 == 0) by (nonlinear_arith);
    assert(div_toward_zero(a, 1) == a);
}

/// Dividing a timestamp is integer division as Rust does it: the quotient
/// times the divisor, plus a remainder smaller than the divisor that has the
/// dividend's sign (or is zero), gives back the dividend. So a non-negative
/// timestamp divided by a positive number is a non-negative floor.
pub proof fn lemma_div_is_integer_division(t: Timestamp, d: i64)
    requires
        d != 0,
        !(t.0 == i64::MIN && d == -1),
    ensures
        ({
            let q = vstd::std_specs::ops::DivSpec::div_spec(t, d).0 as int;
            let r = t.0 as int - q * d as int;
            let m = if d > 0 {
                d as int
            } else {
                -(d as int)
            };
            &&& t.0 >= 0 ==> 0 <= r < m
            &&& t.0 < 0 ==> -m < r <= 0
            &&& (t.0 >= 0 && d > 0) ==> q >= 0
        }),
{
    let a = t.0 as int;
    let b = d as int;
    let aa = if a >= 0 {
        a
    } else {
        -a
    };
    let bb = if b >= 0 {
        b
    } else {
        -b
    };
    let q0 = aa / bb;
    let r0 = aa - q0 * bb;
    assert(0 <= r0 < bb && 0 <= q0 <= aa) by (nonlinear_arith)
        requires
            aa >= 0,
            bb >= 1,
            q0 == aa / bb,
            r0 == aa - q0 * bb,
    ;
    assert(aa == 0x8000_0000_0000_0000 && (a >= 0) == (b > 0) ==> bb >= 2);
    assert((aa == 0x8000_0000_0000_0000 && bb >= 2) ==> q0 <= 0x4000_0000_0000_0000)
        by (nonlinear_arith)
        requires
            bb >= 1,
            q0 == aa / bb,
            aa >= 0,
    ;
    let q = div_toward_zero(a, b);
    assert(q == (if (a >= 0) == (b > 0) {
        q0
    } else {
        -q0
    }));
    assert(i64::MIN <= q <= i64::MAX);
    assert(vstd::std_specs::ops::DivSpec::div_spec(t, d).0 as int == q);
    assert(q * b == (if (a >= 0) {
        q0 * bb
    } else {
        -(q0 * bb)
    })) by (nonlinear_arith)
        requires
            q == (if (a >= 0) == (b > 0) {
                q0
            } else {
                -q0
            }),
            bb == (if b >= 0 {
                b
            } else {
                -b
            }),
            b != 0,
    ;
}

/// Integer text magnification, so a bitmap glyph stays crisp.
#[derive(Clone, Copy, Debug, PartialEq, Eq, PartialOrd, Ord, Hash, Structural)]
#[non_exhaustive]
pub enum TextScale {
    /// 8px cell.
    X1,
    /// 16px cell.
    X2,
    /// 24px cell.
    X3,
    /// 32px cell.
    X4,
}

impl Default for TextScale {
    fn default() -> (s: TextScale)
        ensures
            s == TextScale::X1,
    {
        TextScale::X1
    }
}

/// Pixels per glyph pixel at each scale.
pub open spec fn scale_factor(s: TextScale) -> nat {
    match s {
        TextScale::X1 => 1,
        TextScale::X2 => 2,
        TextScale::X3 => 3,
        TextScale::X4 => 4,
    }
}

/// The side of one glyph cell in the font, in pixels.
pub const GLYPH: u32 = 8;

impl TextScale {
    /// The magnification factor as a number of pixels per glyph pixel.
    pub fn factor(self) -> (f: u32)
        ensures
            f == scale_factor(self),
    {
        match self {
            TextScale::X1 => 1,
            TextScale::X2 => 2,
            TextScale::X3 => 3,
            TextScale::X4 => 4,
        }
    }

    /// The scale for an integer magnification: 0 and 1 are the 8px cell, and
    /// anything past 4 is the largest.
    pub fn from_magnification(px: u32) -> (s: TextScale)
        ensures
            scale_factor(s) == (if px <= 1 {
                1
            } else if px >= 4 {
                4
            } else {
                px as nat
            }),
    {
        match px {
            0 | 1 => TextScale::X1,
            2 => TextScale::X2,
            3 => TextScale::X3,
            _ => TextScale::X4,
        }
    }
}

/// Width in pixels that `chars` glyphs occupy at `scale`.
pub fn text_width_px(chars: usize, scale: TextScale) -> (w: u128)
    ensures
        w == chars * GLYPH * scale_factor(scale),
{
    let f = scale.factor();
    assert(chars * 8 * f <= usize::MAX * 32) by (nonlinear_arith)
        requires
            chars <= usize::MAX,
            f <= 4,
    ;
    (chars as u128) * (GLYPH as u128) * (f as u128)
}

} // verus!
