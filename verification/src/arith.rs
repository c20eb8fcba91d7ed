//! Fixed-width and fixed-point arithmetic used by the reward computations:
//! a 256-bit unsigned integer (computed by `sp-core`) and parts-per-billion
//! ratios (computed by `sp-arithmetic`).

use vstd::prelude::*;

verus! {

/// 2^64.
pub open spec fn pow64() -> nat {
    0x1_0000_0000_0000_0000nat
}

/// 2^128.
pub open spec fn pow128() -> nat {
    0x1_0000_0000_0000_0000_0000_0000_0000_0000nat
}

/// 2^192.
pub open spec fn pow192() -> nat {
    0x1_0000_0000_0000_0000_0000_0000_0000_0000_0000_0000_0000_0000nat
}

/// 2^256, the first value that no `U256` holds.
pub open spec fn pow256() -> nat {
    0x1_0000_0000_0000_0000_0000_0000_0000_0000_0000_0000_0000_0000_0000_0000_0000_0000nat
}

/// An unsigned 256-bit integer: four little-endian 64-bit limbs, laid out as
/// `sp_core::U256` lays them out.
#[derive(Clone, Copy, Debug, PartialEq, Eq)]
pub struct U256 {
    pub limbs: [u64; 4],
}

impl U256 {
    /// The number that the limbs stand for.
    pub open spec fn value(&self) -> nat {
        self.limbs[0] as nat + self.limbs[1] as nat * pow64() + self.limbs[2] as nat * pow128()
            + self.limbs[3] as nat * pow192()
    }

    /// Zero.
    pub fn zero() -> (r: U256)
        ensures
            r.value() == 0,
    {
        let r = U256 { limbs: [0u64, 0u64, 0u64, 0u64] };
        assert(r.limbs[0] == 0 && r.limbs[1] == 0 && r.limbs[2] == 0 && r.limbs[3] == 0);
        r
    }

    /// Widens a `u128`.
    pub fn from_u128(x: u128) -> (r: U256)
        ensures
            r.value() == x,
    {
        u256_from_u128(x)
    }

    /// Narrows to a `u128`: `None` when the value does not fit.
    pub fn to_u128(&self) -> (r: Option<u128>)
        ensures
            r == (if self.value() < pow128() {
                Some(self.value() as u128)
            } else {
                None::<u128>
            }),
    {
        u256_try_into_u128(*self)
    }

    /// `self + other`, `None` on overflow.
    pub fn checked_add(&self, other: &U256) -> (r: Option<U256>)
        ensures
            match r {
                Some(v) => self.value() + other.value() < pow256() && v.value() == self.value()
                    + other.value(),
                None => self.value() + other.value() >= pow256(),
            },
    {
        u256_checked_add(*self, *other)
    }

    /// `self - other`, `None` when `other > self`.
    pub fn checked_sub(&self, other: &U256) -> (r: Option<U256>)
        ensures
            match r {
                Some(v) => other.value() <= self.value() && v.value() == self.value()
                    - other.value(),
                None => other.value() > self.value(),
            },
    {
        u256_checked_sub(*self, *other)
    }

    /// `self * other`, `None` on overflow.
    pub fn checked_mul(&self, other: &U256) -> (r: Option<U256>)
        ensures
            match r {
                Some(v) => self.value() * other.value() < pow256() && v.value() == self.value()
                    * other.value(),
                None => self.value() * other.value() >= pow256(),
            },
    {
        u256_checked_mul(*self, *other)
    }

    /// `self / other` rounded down, `None` when `other` is zero.
    pub fn checked_div(&self, other: &U256) -> (r: Option<U256>)
        ensures
            match r {
                Some(v) => other.value() != 0 && v.value() == self.value() / other.value(),
                None => other.value() == 0,
            },
    {
        u256_checked_div(*self, *other)
    }

    /// `self < other`.
    pub fn lt(&self, other: &U256) -> (r: bool)
        ensures
            r == (self.value() < other.value()),
    {
        u256_lt(*self, *other)
    }
}

/// Calls `<sp_core::U256 as From<u128>>::from`, which puts the low and high
/// halves of `x` in the two low limbs; the contract claims that the result
/// stands for `x`.
#[verifier::external_body]
fn u256_from_u128(x: u128) -> (r: U256)
    ensures
        r.value() == x,
{
    U256 { limbs: sp_core::U256::from(x).0 }
}

/// Calls `<u128 as TryFrom<sp_core::U256>>::try_from`; the contract claims that it
/// gives the value exactly when it is below 2^128, and fails otherwise.
#[verifier::external_body]
fn u256_try_into_u128(x: U256) -> (r: Option<u128>)
    ensures
        r == (if x.value() < pow128() {
            Some(x.value() as u128)
        } else {
            None::<u128>
        }),
{
    u128::try_from(sp_core::U256(x.limbs)).ok()
}

/// Calls `sp_core::U256::checked_add`; the contract claims the exact sum when it
/// is below 2^256 and `None` otherwise.
#[verifier::external_body]
fn u256_checked_add(a: U256, b: U256) -> (r: Option<U256>)
    ensures
        match r {
            Some(v) => a.value() + b.value() < pow256() && v.value() == a.value() + b.value(),
            None => a.value() + b.value() >= pow256(),
        },
{
    sp_core::U256(a.limbs).checked_add(sp_core::U256(b.limbs)).map(|v| U256 { limbs: v.0 })
}

/// Calls `sp_core::U256::checked_sub`; the contract claims the exact difference
/// when `b <= a` and `None` otherwise.
#[verifier::external_body]
fn u256_checked_sub(a: U256, b: U256) -> (r: Option<U256>)
    ensures
        match r {
            Some(v) => b.value() <= a.value() && v.value() == a.value() - b.value(),
            None => b.value() > a.value(),
        },
{
    sp_core::U256(a.limbs).checked_sub(sp_core::U256(b.limbs)).map(|v| U256 { limbs: v.0 })
}

/// Calls `sp_core::U256::checked_mul`; the contract claims the exact product when
/// it is below 2^256 and `None` otherwise.
#[verifier::external_body]
fn u256_checked_mul(a: U256, b: U256) -> (r: Option<U256>)
    ensures
        match r {
            Some(v) => a.value() * b.value() < pow256() && v.value() == a.value() * b.value(),
            None => a.value() * b.value() >= pow256(),
        },
{
    sp_core::U256(a.limbs).checked_mul(sp_core::U256(b.limbs)).map(|v| U256 { limbs: v.0 })
}

/// Calls `sp_core::U256::checked_div`; the contract claims the quotient rounded
/// down when `b` is not zero and `None` otherwise.
#[verifier::external_body]
fn u256_checked_div(a: U256, b: U256) -> (r: Option<U256>)
    ensures
        match r {
            Some(v) => b.value() != 0 && v.value() == a.value() / b.value(),
            None => b.value() == 0,
        },
{
    sp_core::U256(a.limbs).checked_div(sp_core::U256(b.limbs)).map(|v| U256 { limbs: v.0 })
}

/// Calls `<sp_core::U256 as PartialOrd>::lt`; the contract claims that it orders
/// by value.
#[verifier::external_body]
fn u256_lt(a: U256, b: U256) -> (r: bool)
    ensures
        r == (a.value() < b.value()),
{
    sp_core::U256(a.limbs) < sp_core::U256(b.limbs)
}

/// One billion, the number of parts in a whole `Perbill`.
pub open spec fn billion() -> int {
    1_000_000_000int
}

/// A ratio in parts per billion, between zero and one.
#[derive(Clone, Copy, Debug, PartialEq, Eq)]
pub struct Perbill {
    parts: u32,
}

impl Perbill {
    /// The number of parts per billion.
    pub closed spec fn spec_parts(&self) -> nat {
        self.parts as nat
    }

    /// A perbill never holds more than a billion parts.
    pub closed spec fn wf(&self) -> bool {
        self.parts <= 1_000_000_000
    }

    /// A well-formed perbill holds at most a billion parts.
    pub proof fn lemma_parts_bound(&self)
        requires
            self.wf(),
        ensures
            self.spec_parts() <= billion(),
    {
    }

    /// Perbills with the same parts are the same.
    pub proof fn lemma_same_parts(&self, other: Perbill)
        requires
            self.spec_parts() == other.spec_parts(),
        ensures
            *self == other,
    {
    }

    /// The number of parts per billion.
    pub fn deconstruct(&self) -> (r: u32)
        ensures
            r == self.spec_parts(),
    {
        self.parts
    }

    /// `x` percent, saturating at 100.
    pub fn from_percent(x: u32) -> (r: Perbill)
        ensures
            r.wf(),
            r.spec_parts() == (if x > 100 {
                100
            } else {
                x
            }) * 10_000_000,
    {
        Perbill { parts: perbill_from_percent(x) }
    }

    /// `parts` parts per billion, saturating at one billion.
    pub fn from_parts(parts: u32) -> (r: Perbill)
        ensures
            r.wf(),
            r.spec_parts() == (if parts > 1_000_000_000 {
                1_000_000_000
            } else {
                parts
            }),
    {
        Perbill { parts: perbill_from_parts(parts) }
    }

    /// `p / q` rounded down; a whole when `q` is zero or `p > q`.
    pub fn from_rational(p: u128, q: u128) -> (r: Perbill)
        ensures
            r.wf(),
            r.spec_parts() == spec_perbill_from_rational(p as int, q as int),
    {
        let parts = perbill_from_rational(p, q);
        proof {
            lemma_ratio_at_most_whole(p as int, q as int);
        }
        Perbill { parts }
    }

    /// `x * self` rounded down.
    pub fn mul_floor(&self, x: u128) -> (r: u128)
        requires
            self.wf(),
        ensures
            r == x * self.spec_parts() / billion(),
    {
        perbill_mul_floor(self.parts, x)
    }
}

/// The parts of `Perbill::from_rational(p, q)`.
pub open spec fn spec_perbill_from_rational(p: int, q: int) -> int {
    if q == 0 || p > q {
        billion()
    } else {
        billion() * p / q
    }
}

/// A ratio `p / q` with `p <= q` takes at most a billion parts.
proof fn lemma_ratio_at_most_whole(p: int, q: int)
    requires
        0 <= p,
        0 <= q,
    ensures
        0 <= spec_perbill_from_rational(p, q) <= billion(),
{
    if q != 0 && p <= q {
        assert(billion() * p <= billion() * q) by (nonlinear_arith)
            requires
                p <= q,
        ;
        assert(billion() * p / q <= billion()) by (nonlinear_arith)
            requires
                billion() * p <= billion() * q,
                q > 0,
        ;
        assert(billion() * p / q >= 0) by (nonlinear_arith)
            requires
                p >= 0,
                q > 0,
        ;
    }
}

/// A ratio in parts per million, between zero and one.
#[derive(Clone, Copy, Debug, PartialEq, Eq)]
pub struct Permill {
    pub parts: u32,
}

/// The parts of `Permill::from_rational(p, q)`: `floor(10^6 * p / q)`, a
/// whole when `q` is zero or `p > q`.
pub open spec fn spec_permill_from_rational(p: int, q: int) -> int {
    if q == 0 || p > q {
        1_000_000
    } else {
        1_000_000 * p / q
    }
}

impl Permill {
    /// `p / q` rounded down; a whole when `q` is zero or `p > q`.
    pub fn from_rational(p: u64, q: u64) -> (r: Permill)
        ensures
            r.parts == spec_permill_from_rational(p as int, q as int),
    {
        Permill { parts: permill_from_rational(p, q) }
    }
}

/// Calls `sp_arithmetic::Permill::from_rational` on `u64`s; the contract claims
/// `floor(10^6 * p / q)` parts, and a whole when `q` is zero or `p > q`.
#[verifier::external_body]
fn permill_from_rational(p: u64, q: u64) -> (r: u32)
    ensures
        r == spec_permill_from_rational(p as int, q as int),
{
    sp_arithmetic::Permill::from_rational(p, q).deconstruct()
}

/// Calls `sp_arithmetic::Perbill::from_percent`; the contract claims the parts
/// of `min(x, 100)` percent.
#[verifier::external_body]
fn perbill_from_percent(x: u32) -> (r: u32)
    ensures
        r == (if x > 100 {
            100
        } else {
            x
        }) * 10_000_000,
{
    sp_arithmetic::Perbill::from_percent(x).deconstruct()
}

/// Calls `sp_arithmetic::Perbill::from_parts`; the contract claims that it
/// saturates at one billion parts.
#[verifier::external_body]
fn perbill_from_parts(parts: u32) -> (r: u32)
    ensures
        r == (if parts > 1_000_000_000 {
            1_000_000_000
        } else {
            parts
        }),
{
    sp_arithmetic::Perbill::from_parts(parts).deconstruct()
}

/// Calls `sp_arithmetic::Perbill::from_rational` on `u128`s; the contract claims
/// `floor(10^9 * p / q)` parts, and a whole when `q` is zero or `p > q`.
#[verifier::external_body]
fn perbill_from_rational(p: u128, q: u128) -> (r: u32)
    ensures
        r == spec_perbill_from_rational(p as int, q as int),
{
    sp_arithmetic::Perbill::from_rational(p, q).deconstruct()
}

/// Calls `sp_arithmetic::Perbill::mul_floor` on a `u128`; the contract claims
/// `floor(x * parts / 10^9)`.
#[verifier::external_body]
fn perbill_mul_floor(parts: u32, x: u128) -> (r: u128)
    requires
        parts <= 1_000_000_000,
    ensures
        r == x * parts / billion(),
{
    sp_arithmetic::Perbill::from_parts(parts).mul_floor(x)
}

/// Calls `sp_arithmetic::helpers_128bit::multiply_by_rational_with_rounding` with
/// `Rounding::Down`; the contract claims `floor(a * b / c)` when `c` is not zero
/// and the quotient fits in a `u128`, and `None` otherwise.
#[verifier::external_body]
pub(crate) fn multiply_by_rational_down(a: u128, b: u128, c: u128) -> (r: Option<u128>)
    ensures
        r == (if c != 0 && a * b / (c as int) <= u128::MAX {
            Some((a * b / (c as int)) as u128)
        } else {
            None::<u128>
        }),
{
    sp_arithmetic::helpers_128bit::multiply_by_rational_with_rounding(
        a,
        b,
        c,
        sp_arithmetic::Rounding::Down,
    )
}

} // verus!
