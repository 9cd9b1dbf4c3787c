use vstd::prelude::*;
use vstd::arithmetic::power2::{
    pow2, lemma_pow2_pos, lemma_pow2_strictly_increases, lemma_pow2_unfold,
};

verus! {

/// Bit of the sign in an IEEE 754 binary32 pattern.
pub const SIGN_BIT: u32 = 0x8000_0000;

/// Pattern of positive infinity; magnitudes above it are NaNs.
pub const INF_BITS: u32 = 0x7f80_0000;

/// Pattern of negative infinity.
pub const NEG_INF_BITS: u32 = 0xff80_0000;

/// Pattern of the largest finite value.
pub const MAX_BITS: u32 = 0x7f7f_ffff;

/// Pattern of the quiet NaN handed out when a result is undefined.
pub const NAN_BITS: u32 = 0x7fc0_0000;

/// Number of patterns in one binade: 2 to the width of the fraction field.
pub const BINADE: u32 = 0x0080_0000;

/// An IEEE 754 binary32 number, held as its bit pattern.
///
/// A finite pattern stands for an integer multiple of 2^-149 (the smallest
/// subnormal): `value` gives that integer.
#[derive(Clone, Copy, Debug, PartialEq, Eq, Structural)]
pub struct Binary32 {
    pub bits: u32,
}

/// The magnitude, in units of 2^-149, of the pattern whose low 31 bits are `m`.
pub open spec fn magnitude_value(m: int) -> int {
    let e = m / (BINADE as int);
    let f = m % (BINADE as int);
    if e == 0 {
        f
    } else {
        (BINADE + f) * pow2((e - 1) as nat)
    }
}

/// The largest finite value, in units of 2^-149.
pub open spec fn max_value() -> int {
    magnitude_value(MAX_BITS as int)
}

impl Binary32 {
    /// The low 31 bits: exponent and fraction fields.
    pub open spec fn magnitude(self) -> int {
        (self.bits % SIGN_BIT) as int
    }

    pub open spec fn is_negative(self) -> bool {
        self.bits >= SIGN_BIT
    }

    pub open spec fn is_nan(self) -> bool {
        self.magnitude() > INF_BITS
    }

    pub open spec fn is_infinite(self) -> bool {
        self.magnitude() == INF_BITS
    }

    pub open spec fn is_finite(self) -> bool {
        self.magnitude() < INF_BITS
    }

    /// Position on the line of finite values and infinities; both zeros sit at 0.
    pub open spec fn rank(self) -> int {
        if self.is_negative() {
            -self.magnitude()
        } else {
            self.magnitude()
        }
    }

    /// The exact value of a finite pattern, in units of 2^-149.
    pub open spec fn value(self) -> int {
        if self.is_negative() {
            -magnitude_value(self.magnitude())
        } else {
            magnitude_value(self.magnitude())
        }
    }

    pub open spec fn is_max(self) -> bool {
        self.bits == MAX_BITS
    }

    pub open spec fn is_min(self) -> bool {
        self.bits == (SIGN_BIT + MAX_BITS) as u32
    }

    /// The same number with the opposite sign.
    pub open spec fn negated(self) -> Binary32 {
        Binary32 {
            bits: if self.is_negative() {
                (self.bits - SIGN_BIT) as u32
            } else {
                (self.bits + SIGN_BIT) as u32
            },
        }
    }

    pub fn from_bits(bits: u32) -> (r: Binary32)
        ensures
            r.bits == bits,
    {
        Binary32 { bits }
    }

    pub fn to_bits(self) -> (r: u32)
        ensures
            r == self.bits,
    {
        self.bits
    }

    pub fn infinity() -> (r: Binary32)
        ensures
            r.bits == INF_BITS,
            r.is_infinite(),
            !r.is_negative(),
    {
        Binary32 { bits: INF_BITS }
    }

    pub fn neg_infinity() -> (r: Binary32)
        ensures
            r.bits == NEG_INF_BITS,
            r.is_infinite(),
            r.is_negative(),
    {
        Binary32 { bits: NEG_INF_BITS }
    }

    pub fn nan() -> (r: Binary32)
        ensures
            r.is_nan(),
    {
        Binary32 { bits: NAN_BITS }
    }

    /// Positive zero.
    pub fn zero() -> (r: Binary32)
        ensures
            r.is_finite(),
            r.value() == 0,
            r.bits == 0,
    {
        Binary32 { bits: 0 }
    }

    /// The largest finite value.
    pub fn max_value() -> (r: Binary32)
        ensures
            r.is_max(),
            r.is_finite(),
            r.value() == max_value(),
    {
        Binary32 { bits: MAX_BITS }
    }

    /// The least finite value, the negation of the largest.
    pub fn min_value() -> (r: Binary32)
        ensures
            r.is_min(),
            r.is_finite(),
            r.value() == -max_value(),
    {
        Binary32 { bits: SIGN_BIT + MAX_BITS }
    }

    /// The smallest positive subnormal, 2^-149.
    pub fn unit_underflow() -> (r: Binary32)
        ensures
            r.is_finite(),
            r.value() == 1,
            r.bits == 1,
    {
        Binary32 { bits: 1 }
    }

    /// The negated smallest positive subnormal, -2^-149.
    pub fn neg_unit_underflow() -> (r: Binary32)
        ensures
            r.is_finite(),
            r.value() == -1,
            r.bits == SIGN_BIT + 1,
    {
        Binary32 { bits: SIGN_BIT + 1 }
    }

    pub fn neg(self) -> (r: Binary32)
        ensures
            r == self.negated(),
    {
        if self.bits >= SIGN_BIT {
            Binary32 { bits: self.bits - SIGN_BIT }
        } else {
            Binary32 { bits: self.bits + SIGN_BIT }
        }
    }

    /// The low 31 bits of the pattern.
    pub fn magnitude_bits(self) -> (r: u32)
        ensures
            r == self.magnitude(),
    {
        let b = self.bits;
        assert(b & 0x7fff_ffffu32 == b % 0x8000_0000u32) by (bit_vector);
        b & 0x7fff_ffff
    }

    /// The rank of a number that is not NaN.
    fn signed_rank(self) -> (r: i32)
        requires
            !self.is_nan(),
        ensures
            r == self.rank(),
    {
        let m = self.magnitude_bits();
        if self.bits >= SIGN_BIT {
            -(m as i32)
        } else {
            m as i32
        }
    }

    /// Floating-point `self != self`: true of NaN alone.
    pub fn is_nan_number(self) -> (r: bool)
        ensures
            r == self.is_nan(),
    {
        self.magnitude_bits() > INF_BITS
    }

    /// Floating-point `<`: false where either side is NaN.
    pub fn lt(self, other: Binary32) -> (r: bool)
        ensures
            r == (!self.is_nan() && !other.is_nan() && self.rank() < other.rank()),
    {
        if self.is_nan_number() || other.is_nan_number() {
            false
        } else {
            self.signed_rank() < other.signed_rank()
        }
    }

    /// Floating-point `==`: the two zeros are equal, NaN equals nothing.
    pub fn eq_number(self, other: Binary32) -> (r: bool)
        ensures
            r == (!self.is_nan() && !other.is_nan() && self.rank() == other.rank()),
    {
        if self.is_nan_number() || other.is_nan_number() {
            false
        } else {
            self.signed_rank() == other.signed_rank()
        }
    }

    /// Whether `self` is an infinity of either sign.
    pub fn is_infinite_number(self) -> (r: bool)
        ensures
            r == self.is_infinite(),
    {
        self.magnitude_bits() == INF_BITS
    }

    /// Whether `self` is a zero of either sign.
    pub fn is_zero_number(self) -> (r: bool)
        ensures
            r == (self.magnitude() == 0),
    {
        self.magnitude_bits() == 0
    }

    /// Floating-point `self > 0`.
    pub fn is_positive(self) -> (r: bool)
        ensures
            r == (!self.is_nan() && self.rank() > 0),
    {
        self.bits > 0 && self.bits <= INF_BITS
    }

    /// Floating-point `self < 0`.
    pub fn is_negative_number(self) -> (r: bool)
        ensures
            r == (!self.is_nan() && self.rank() < 0),
    {
        self.bits > SIGN_BIT && self.bits <= NEG_INF_BITS
    }
}


proof fn lemma_magnitude_value_below_binade_top(m: int)
    requires
        0 <= m,
    ensures
        0 <= magnitude_value(m) < BINADE * pow2((m / (BINADE as int)) as nat),
        m / (BINADE as int) > 0 ==> magnitude_value(m) >= BINADE * pow2(
            (m / (BINADE as int) - 1) as nat,
        ),
        magnitude_value(m) == 0 <==> m == 0,
{
    let e = m / (BINADE as int);
    let f = m % (BINADE as int);
    lemma_pow2_pos(e as nat);
    if e > 0 {
        let p = pow2((e - 1) as nat);
        lemma_pow2_pos((e - 1) as nat);
        lemma_pow2_unfold(e as nat);
        assert(pow2(e as nat) == 2 * p);
        assert((BINADE + f) * p < BINADE * (2 * p)) by (nonlinear_arith)
            requires
                0 <= f < BINADE,
                p > 0,
        ;
        assert((BINADE + f) * p >= BINADE * p) by (nonlinear_arith)
            requires
                0 <= f,
                p > 0,
        ;
        assert(BINADE * p > 0) by (nonlinear_arith)
            requires
                p > 0,
        ;
    } else {
        assert(pow2(0) == 1) by {
            vstd::arithmetic::power2::lemma2_to64();
        }
    }
}

/// Magnitudes grow strictly with the pattern.
pub proof fn lemma_magnitude_value_strictly_increases(m: int, n: int)
    requires
        0 <= m < n,
    ensures
        magnitude_value(m) < magnitude_value(n),
{
    let em = m / (BINADE as int);
    let en = n / (BINADE as int);
    lemma_magnitude_value_below_binade_top(m);
    lemma_magnitude_value_below_binade_top(n);
    assert(em <= en) by (nonlinear_arith)
        requires
            0 <= m < n,
            em == m / (BINADE as int),
            en == n / (BINADE as int),
    ;
    if em == en {
        let fm = m % (BINADE as int);
        let fn_ = n % (BINADE as int);
        assert(fm < fn_) by (nonlinear_arith)
            requires
                0 <= m < n,
                em == m / (BINADE as int),
                en == n / (BINADE as int),
                em == en,
                fm == m % (BINADE as int),
                fn_ == n % (BINADE as int),
        ;
        if em > 0 {
            let p = pow2((em - 1) as nat);
            lemma_pow2_pos((em - 1) as nat);
            assert((BINADE + fm) * p < (BINADE + fn_) * p) by (nonlinear_arith)
                requires
                    fm < fn_,
                    p > 0,
            ;
        }
    } else {
        if em < en - 1 {
            lemma_pow2_strictly_increases(em as nat, (en - 1) as nat);
        }
        let a = pow2(em as nat);
        let b = pow2((en - 1) as nat);
        assert(BINADE * a <= BINADE * b) by (nonlinear_arith)
            requires
                a <= b,
        ;
    }
}

/// Every finite value lies within the largest finite magnitude.
pub proof fn lemma_value_bounded(x: Binary32)
    requires
        x.is_finite(),
    ensures
        -max_value() <= x.value() <= max_value(),
        x.magnitude() <= MAX_BITS,
{
    if x.magnitude() < MAX_BITS {
        lemma_magnitude_value_strictly_increases(x.magnitude(), MAX_BITS as int);
    }
    lemma_magnitude_value_below_binade_top(x.magnitude());
}

/// On finite patterns, values are ordered as ranks are.
pub proof fn lemma_value_order(x: Binary32, y: Binary32)
    requires
        x.is_finite(),
        y.is_finite(),
    ensures
        x.rank() < y.rank() <==> x.value() < y.value(),
        x.rank() == y.rank() <==> x.value() == y.value(),
{
    let mx = x.magnitude();
    let my = y.magnitude();
    lemma_magnitude_value_below_binade_top(mx);
    lemma_magnitude_value_below_binade_top(my);
    if mx < my {
        lemma_magnitude_value_strictly_increases(mx, my);
    } else if my < mx {
        lemma_magnitude_value_strictly_increases(my, mx);
    }
}

/// The sign of a finite value is read from its pattern.
pub proof fn lemma_value_sign(x: Binary32)
    requires
        x.is_finite(),
    ensures
        x.value() > 0 <==> x.rank() > 0,
        x.value() < 0 <==> x.rank() < 0,
        x.value() == 0 <==> x.rank() == 0,
{
    lemma_magnitude_value_below_binade_top(x.magnitude());
}


/// Negation flips the sign and keeps the magnitude.
pub proof fn lemma_negated(x: Binary32)
    ensures
        x.negated().magnitude() == x.magnitude(),
        x.negated().is_negative() != x.is_negative(),
        x.negated().rank() == -x.rank(),
        x.is_finite() ==> x.negated().value() == -x.value(),
        x.negated().negated() == x,
{
}

// The stepper on binary32 patterns.


/// The pattern of the least value strictly above `x`.
///
/// Infinity stays infinite and NaN stays NaN; negative infinity has no
/// successor that the stepping formula reaches, and gives NaN.
pub open spec fn succ_of(x: Binary32) -> Binary32 {
    if x.is_nan() || x.bits == INF_BITS {
        x
    } else if x.bits == NEG_INF_BITS {
        Binary32 { bits: NAN_BITS }
    } else if x.bits == SIGN_BIT {
        Binary32 { bits: 1 }
    } else if x.bits < SIGN_BIT {
        Binary32 { bits: (x.bits + 1) as u32 }
    } else {
        Binary32 { bits: (x.bits - 1) as u32 }
    }
}

/// The pattern of the greatest value strictly below `x`; the mirror of `succ_of`.
pub open spec fn pred_of(x: Binary32) -> Binary32 {
    if x.is_nan() || x.bits == NEG_INF_BITS {
        x
    } else if x.bits == INF_BITS {
        Binary32 { bits: NAN_BITS }
    } else if x.bits == 0 {
        Binary32 { bits: (SIGN_BIT + 1) as u32 }
    } else if x.bits < SIGN_BIT {
        Binary32 { bits: (x.bits - 1) as u32 }
    } else {
        Binary32 { bits: (x.bits + 1) as u32 }
    }
}

/// `y` is the least finite value strictly above `x`, or positive infinity
/// where `x` is the largest finite value.
pub open spec fn is_next_above(x: Binary32, y: Binary32) -> bool {
    if x.is_max() {
        y.bits == INF_BITS
    } else {
        &&& y.is_finite()
        &&& x.value() < y.value()
        &&& forall|c: Binary32|
            #![trigger c.value()]
            c.is_finite() && x.value() < c.value() ==> y.value() <= c.value()
    }
}

/// `y` is the greatest finite value strictly below `x`, or negative infinity
/// where `x` is the least finite value.
pub open spec fn is_next_below(x: Binary32, y: Binary32) -> bool {
    if x.is_min() {
        y.bits == NEG_INF_BITS
    } else {
        &&& y.is_finite()
        &&& y.value() < x.value()
        &&& forall|c: Binary32|
            #![trigger c.value()]
            c.is_finite() && c.value() < x.value() ==> c.value() <= y.value()
    }
}

/// On a finite pattern the successor moves one rank up.
pub proof fn lemma_succ_rank(x: Binary32)
    requires
        x.is_finite(),
    ensures
        x.is_max() ==> succ_of(x).bits == INF_BITS,
        !x.is_max() ==> succ_of(x).is_finite() && succ_of(x).rank() == x.rank() + 1,
{
    lemma_value_bounded(x);
}

/// On a finite pattern the predecessor moves one rank down.
pub proof fn lemma_pred_rank(x: Binary32)
    requires
        x.is_finite(),
    ensures
        x.is_min() ==> pred_of(x).bits == NEG_INF_BITS,
        !x.is_min() ==> pred_of(x).is_finite() && pred_of(x).rank() == x.rank() - 1,
{
    lemma_value_bounded(x);
}

/// The successor of a finite value is the adjacent value above it.
pub proof fn lemma_succ_is_next_above(x: Binary32)
    requires
        x.is_finite(),
    ensures
        is_next_above(x, succ_of(x)),
{
    lemma_succ_rank(x);
    if !x.is_max() {
        let y = succ_of(x);
        lemma_value_order(x, y);
        assert forall|c: Binary32|
            #![trigger c.value()]
            c.is_finite() && x.value() < c.value() implies y.value() <= c.value() by {
            lemma_value_order(x, c);
            lemma_value_order(y, c);
        }
    }
}

/// The predecessor of a finite value is the adjacent value below it.
pub proof fn lemma_pred_is_next_below(x: Binary32)
    requires
        x.is_finite(),
    ensures
        is_next_below(x, pred_of(x)),
{
    lemma_pred_rank(x);
    if !x.is_min() {
        let y = pred_of(x);
        lemma_value_order(x, y);
        assert forall|c: Binary32|
            #![trigger c.value()]
            c.is_finite() && c.value() < x.value() implies c.value() <= y.value() by {
            lemma_value_order(x, c);
            lemma_value_order(y, c);
        }
    }
}

/// The least value strictly above `x`.
///
/// For finite `x` below the largest value this is the adjacent finite value;
/// the largest value steps to infinity, infinity stays, NaN stays NaN.
pub fn succ(x: Binary32) -> (r: Binary32)
    ensures
        r == succ_of(x),
        x.is_finite() ==> is_next_above(x, r),
        x.is_nan() ==> r.is_nan(),
        x.bits == INF_BITS ==> r.bits == INF_BITS,
{
    proof {
        if x.is_finite() {
            lemma_succ_is_next_above(x);
        }
    }
    let m = x.magnitude_bits();
    if m > INF_BITS || x.bits == INF_BITS {
        x
    } else if x.bits == NEG_INF_BITS {
        Binary32 { bits: NAN_BITS }
    } else if x.bits == SIGN_BIT {
        Binary32 { bits: 1 }
    } else if x.bits < SIGN_BIT {
        Binary32 { bits: x.bits + 1 }
    } else {
        Binary32 { bits: x.bits - 1 }
    }
}

/// The greatest value strictly below `x`; the mirror of `succ`.
pub fn pred(x: Binary32) -> (r: Binary32)
    ensures
        r == pred_of(x),
        x.is_finite() ==> is_next_below(x, r),
        x.is_nan() ==> r.is_nan(),
        x.bits == NEG_INF_BITS ==> r.bits == NEG_INF_BITS,
{
    proof {
        if x.is_finite() {
            lemma_pred_is_next_below(x);
        }
    }
    let m = x.magnitude_bits();
    if m > INF_BITS || x.bits == NEG_INF_BITS {
        x
    } else if x.bits == INF_BITS {
        Binary32 { bits: NAN_BITS }
    } else if x.bits == 0 {
        Binary32 { bits: SIGN_BIT + 1 }
    } else if x.bits < SIGN_BIT {
        Binary32 { bits: x.bits - 1 }
    } else {
        Binary32 { bits: x.bits + 1 }
    }
}

/// Stepping up then down returns to the same value: for finite `x` other
/// than the largest value, `pred(succ(x))` is finite and equal to `x`; for
/// finite `x` other than the least value, so is `succ(pred(x))`.
pub proof fn lemma_succ_pred_inverse(x: Binary32)
    requires
        x.is_finite(),
    ensures
        !x.is_max() ==> pred_of(succ_of(x)).is_finite() && pred_of(succ_of(x)).value() == x.value(),
        !x.is_min() ==> succ_of(pred_of(x)).is_finite() && succ_of(pred_of(x)).value() == x.value(),
{
    lemma_value_bounded(x);
    if !x.is_max() {
        lemma_succ_rank(x);
        let y = succ_of(x);
        lemma_value_bounded(y);
        lemma_pred_rank(y);
        lemma_value_order(pred_of(y), x);
    }
    if !x.is_min() {
        lemma_pred_rank(x);
        let y = pred_of(x);
        lemma_value_bounded(y);
        lemma_succ_rank(y);
        lemma_value_order(succ_of(y), x);
    }
}

} // verus!
