use vstd::prelude::*;
use vstd::arithmetic::power2::{
    pow2, lemma_pow2_pos, lemma_pow2_strictly_increases, lemma_pow2_unfold,
};

verus! {

/// Bit of the sign in an IEEE 754 binary64 pattern.
pub const SIGN_BIT: u64 = 0x8000_0000_0000_0000;

/// Pattern of positive infinity; magnitudes above it are NaNs.
pub const INF_BITS: u64 = 0x7ff0_0000_0000_0000;

/// Pattern of negative infinity.
pub const NEG_INF_BITS: u64 = 0xfff0_0000_0000_0000;

/// Pattern of the largest finite value.
pub const MAX_BITS: u64 = 0x7fef_ffff_ffff_ffff;

/// Pattern of the quiet NaN handed out when a result is undefined.
pub const NAN_BITS: u64 = 0x7ff8_0000_0000_0000;

/// Number of patterns in one binade: 2 to the width of the fraction field.
pub const BINADE: u64 = 0x0010_0000_0000_0000;

/// An IEEE 754 binary64 number, held as its bit pattern.
///
/// A finite pattern stands for an integer multiple of 2^-1074 (the smallest
/// subnormal): `value` gives that integer.
#[derive(Clone, Copy, Debug, PartialEq, Eq, Structural)]
pub struct Binary64 {
    pub bits: u64,
}

/// The magnitude, in units of 2^-1074, of the pattern whose low 63 bits are `m`.
pub open spec fn magnitude_value(m: int) -> int {
    let e = m / (BINADE as int);
    let f = m % (BINADE as int);
    if e == 0 {
        f
    } else {
        (BINADE + f) * pow2((e - 1) as nat)
    }
}

/// The largest finite value, in units of 2^-1074.
pub open spec fn max_value() -> int {
    magnitude_value(MAX_BITS as int)
}

impl Binary64 {
    /// The low 63 bits: exponent and fraction fields.
    pub open spec fn magnitude(self) -> int {
        (self.bits % SIGN_BIT) as int
    }

    pub open spec fn is_negative(self) -> bool {
        self.bits >= SIGN_BIT
    }

    pub open spec fn is_nan(self) -> bool {
        self.magnitude() > INF_BITS
    }

    pub open spec fn is_infinite(self) -> bool {
        self.magnitude() == INF_BITS
    }

    pub open spec fn is_finite(self) -> bool {
        self.magnitude() < INF_BITS
    }

    /// Position on the line of finite values and infinities; both zeros sit at 0.
    pub open spec fn rank(self) -> int {
        if self.is_negative() {
            -self.magnitude()
        } else {
            self.magnitude()
        }
    }

    /// The exact value of a finite pattern, in units of 2^-1074.
    pub open spec fn value(self) -> int {
        if self.is_negative() {
            -magnitude_value(self.magnitude())
        } else {
            magnitude_value(self.magnitude())
        }
    }

    pub open spec fn is_max(self) -> bool {
        self.bits == MAX_BITS
    }

    pub open spec fn is_min(self) -> bool {
        self.bits == (SIGN_BIT + MAX_BITS) as u64
    }

    /// The same number with the opposite sign.
    pub open spec fn negated(self) -> Binary64 {
        Binary64 {
            bits: if self.is_negative() {
                (self.bits - SIGN_BIT) as u64
            } else {
                (self.bits + SIGN_BIT) as u64
            },
        }
    }

    pub fn from_bits(bits: u64) -> (r: Binary64)
        ensures
            r.bits == bits,
    {
        Binary64 { bits }
    }

    pub fn to_bits(self) -> (r: u64)
        ensures
            r == self.bits,
    {
        self.bits
    }

    pub fn infinity() -> (r: Binary64)
        ensures
            r.bits == INF_BITS,
            r.is_infinite(),
            !r.is_negative(),
    {
        Binary64 { bits: INF_BITS }
    }

    pub fn neg_infinity() -> (r: Binary64)
        ensures
            r.bits == NEG_INF_BITS,
            r.is_infinite(),
            r.is_negative(),
    {
        Binary64 { bits: NEG_INF_BITS }
    }

    pub fn nan() -> (r: Binary64)
        ensures
            r.is_nan(),
    {
        Binary64 { bits: NAN_BITS }
    }

    /// Positive zero.
    pub fn zero() -> (r: Binary64)
        ensures
            r.is_finite(),
            r.value() == 0,
            r.bits == 0,
    {
        Binary64 { bits: 0 }
    }

    /// The largest finite value.
    pub fn max_value() -> (r: Binary64)
        ensures
            r.is_max(),
            r.is_finite(),
            r.value() == max_value(),
    {
        Binary64 { bits: MAX_BITS }
    }

    /// The least finite value, the negation of the largest.
    pub fn min_value() -> (r: Binary64)
        ensures
            r.is_min(),
            r.is_finite(),
            r.value() == -max_value(),
    {
        Binary64 { bits: SIGN_BIT + MAX_BITS }
    }

    /// The smallest positive subnormal, 2^-1074.
    pub fn unit_underflow() -> (r: Binary64)
        ensures
            r.is_finite(),
            r.value() == 1,
            r.bits == 1,
    {
        Binary64 { bits: 1 }
    }

    /// The negated smallest positive subnormal, -2^-1074.
    pub fn neg_unit_underflow() -> (r: Binary64)
        ensures
            r.is_finite(),
            r.value() == -1,
            r.bits == SIGN_BIT + 1,
    {
        Binary64 { bits: SIGN_BIT + 1 }
    }

    pub fn neg(self) -> (r: Binary64)
        ensures
            r == self.negated(),
    {
        if self.bits >= SIGN_BIT {
            Binary64 { bits: self.bits - SIGN_BIT }
        } else {
            Binary64 { bits: self.bits + SIGN_BIT }
        }
    }

    /// The low 63 bits of the pattern.
    pub fn magnitude_bits(self) -> (r: u64)
        ensures
            r == self.magnitude(),
    {
        let b = self.bits;
        assert(b & 0x7fff_ffff_ffff_ffffu64 == b % 0x8000_0000_0000_0000u64) by (bit_vector);
        b & 0x7fff_ffff_ffff_ffff
    }

    /// The rank of a number that is not NaN.
    fn signed_rank(self) -> (r: i64)
        requires
            !self.is_nan(),
        ensures
            r == self.rank(),
    {
        let m = self.magnitude_bits();
        if self.bits >= SIGN_BIT {
            -(m as i64)
        } else {
            m as i64
        }
    }

    /// Floating-point `self != self`: true of NaN alone.
    pub fn is_nan_number(self) -> (r: bool)
        ensures
            r == self.is_nan(),
    {
        self.magnitude_bits() > INF_BITS
    }

    /// Floating-point `<`: false where either side is NaN.
    pub fn lt(self, other: Binary64) -> (r: bool)
        ensures
            r == (!self.is_nan() && !other.is_nan() && self.rank() < other.rank()),
    {
        if self.is_nan_number() || other.is_nan_number() {
            false
        } else {
            self.signed_rank() < other.signed_rank()
        }
    }

    /// Floating-point `==`: the two zeros are equal, NaN equals nothing.
    pub fn eq_number(self, other: Binary64) -> (r: bool)
        ensures
            r == (!self.is_nan() && !other.is_nan() && self.rank() == other.rank()),
    {
        if self.is_nan_number() || other.is_nan_number() {
            false
        } else {
            self.signed_rank() == other.signed_rank()
        }
    }

    /// Whether `self` is an infinity of either sign.
    pub fn is_infinite_number(self) -> (r: bool)
        ensures
            r == self.is_infinite(),
    {
        self.magnitude_bits() == INF_BITS
    }

    /// Whether `self` is a zero of either sign.
    pub fn is_zero_number(self) -> (r: bool)
        ensures
            r == (self.magnitude() == 0),
    {
        self.magnitude_bits() == 0
    }

    /// Floating-point `self > 0`.
    pub fn is_positive(self) -> (r: bool)
        ensures
            r == (!self.is_nan() && self.rank() > 0),
    {
        self.bits > 0 && self.bits <= INF_BITS
    }

    /// Floating-point `self < 0`.
    pub fn is_negative_number(self) -> (r: bool)
        ensures
            r == (!self.is_nan() && self.rank() < 0),
    {
        self.bits > SIGN_BIT && self.bits <= NEG_INF_BITS
    }
}


proof fn lemma_magnitude_value_below_binade_top(m: int)
    requires
        0 <= m,
    ensures
        0 <= magnitude_value(m) < BINADE * pow2((m / (BINADE as int)) as nat),
        m / (BINADE as int) > 0 ==> magnitude_value(m) >= BINADE * pow2(
            (m / (BINADE as int) - 1) as nat,
        ),
        magnitude_value(m) == 0 <==> m == 0,
{
    let e = m / (BINADE as int);
    let f = m % (BINADE as int);
    lemma_pow2_pos(e as nat);
    if e > 0 {
        let p = pow2((e - 1) as nat);
        lemma_pow2_pos((e - 1) as nat);
        lemma_pow2_unfold(e as nat);
        assert(pow2(e as nat) == 2 * p);
        assert((BINADE + f) * p < BINADE * (2 * p)) by (nonlinear_arith)
            requires
                0 <= f < BINADE,
                p > 0,
        ;
        assert((BINADE + f) * p >= BINADE * p) by (nonlinear_arith)
            requires
                0 <= f,
                p > 0,
        ;
        assert(BINADE * p > 0) by (nonlinear_arith)
            requires
                p > 0,
        ;
    } else {
        assert(pow2(0) == 1) by {
            vstd::arithmetic::power2::lemma2_to64();
        }
    }
}

/// Magnitudes grow strictly with the pattern.
pub proof fn lemma_magnitude_value_strictly_increases(m: int, n: int)
    requires
        0 <= m < n,
    ensures
        magnitude_value(m) < magnitude_value(n),
{
    let em = m / (BINADE as int);
    let en = n / (BINADE as int);
    lemma_magnitude_value_below_binade_top(m);
    lemma_magnitude_value_below_binade_top(n);
    assert(em <= en) by (nonlinear_arith)
        requires
            0 <= m < n,
            em == m / (BINADE as int),
            en == n / (BINADE as int),
    ;
    if em == en {
        let fm = m % (BINADE as int);
        let fn_ = n % (BINADE as int);
        assert(fm < fn_) by (nonlinear_arith)
            requires
                0 <= m < n,
                em == m / (BINADE as int),
                en == n / (BINADE as int),
                em == en,
                fm == m % (BINADE as int),
                fn_ == n % (BINADE as int),
        ;
        if em > 0 {
            let p = pow2((em - 1) as nat);
            lemma_pow2_pos((em - 1) as nat);
            assert((BINADE + fm) * p < (BINADE + fn_) * p) by (nonlinear_arith)
                requires
                    fm < fn_,
                    p > 0,
            ;
        }
    } else {
        if em < en - 1 {
            lemma_pow2_strictly_increases(em as nat, (en - 1) as nat);
        }
        let a = pow2(em as nat);
        let b = pow2((en - 1) as nat);
        assert(BINADE * a <= BINADE * b) by (nonlinear_arith)
            requires
                a <= b,
        ;
    }
}

/// Every finite value lies within the largest finite magnitude.
pub proof fn lemma_value_bounded(x: Binary64)
    requires
        x.is_finite(),
    ensures
        -max_value() <= x.value() <= max_value(),
        x.magnitude() <= MAX_BITS,
{
    if x.magnitude() < MAX_BITS {
        lemma_magnitude_value_strictly_increases(x.magnitude(), MAX_BITS as int);
    }
    lemma_magnitude_value_below_binade_top(x.magnitude());
}

/// Every finite value lies within the largest finite magnitude, for all
/// patterns at once.
pub proof fn lemma_all_values_bounded()
    ensures
        forall|c: Binary64|
            #![trigger c.value()]
            c.is_finite() ==> -max_value() <= c.value() <= max_value(),
{
    assert forall|c: Binary64| #![trigger c.value()] c.is_finite() implies -max_value()
        <= c.value() <= max_value() by {
        lemma_value_bounded(c);
    }
}

/// Scaling by 2^0 leaves a value unchanged.
pub proof fn lemma_unscaled(v: int)
    ensures
        pow2(0) == 1,
        v * pow2(0) == v,
{
    vstd::arithmetic::power2::lemma2_to64();
}

/// On finite patterns, values are ordered as ranks are.
pub proof fn lemma_value_order(x: Binary64, y: Binary64)
    requires
        x.is_finite(),
        y.is_finite(),
    ensures
        x.rank() < y.rank() <==> x.value() < y.value(),
        x.rank() == y.rank() <==> x.value() == y.value(),
{
    let mx = x.magnitude();
    let my = y.magnitude();
    lemma_magnitude_value_below_binade_top(mx);
    lemma_magnitude_value_below_binade_top(my);
    if mx < my {
        lemma_magnitude_value_strictly_increases(mx, my);
    } else if my < mx {
        lemma_magnitude_value_strictly_increases(my, mx);
    }
}

/// The sign of a finite value is read from its pattern.
pub proof fn lemma_value_sign(x: Binary64)
    requires
        x.is_finite(),
    ensures
        x.value() > 0 <==> x.rank() > 0,
        x.value() < 0 <==> x.rank() < 0,
        x.value() == 0 <==> x.rank() == 0,
{
    lemma_magnitude_value_below_binade_top(x.magnitude());
}


/// Negation flips the sign and keeps the magnitude.
pub proof fn lemma_negated(x: Binary64)
    ensures
        x.negated().magnitude() == x.magnitude(),
        x.negated().is_negative() != x.is_negative(),
        x.negated().rank() == -x.rank(),
        x.is_finite() ==> x.negated().value() == -x.value(),
        x.negated().negated() == x,
{
}

} // verus!
