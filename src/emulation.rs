use vstd::prelude::*;
use vstd::arithmetic::power2::{
    pow2, lemma_pow2_adds, lemma_pow2_pos, lemma_pow2_strictly_increases,
};
use crate::binary64::{
    Binary64, BINADE, INF_BITS, NEG_INF_BITS, SIGN_BIT, magnitude_value, max_value,
    lemma_magnitude_value_strictly_increases, lemma_all_values_bounded, lemma_unscaled,
    lemma_value_bounded, lemma_value_sign,
};
use crate::exact::{
    Exact, exact_difference, exact_product, exact_quotient, exact_sqrt, exact_sum, is_adjacent,
    is_neg_inf, is_pos_inf, is_zero, units_per_one, lemma_difference_is_sum_of_negation,
    lemma_exact_well_formed, rounded_down, rounded_up,
};
use crate::transform::{
    ErrorFreePair, is_nearby, lemma_beyond_range, lemma_error_sign, lemma_pair_compare,
    lemma_step_down, lemma_step_up,
};
use crate::ulp::{pred, succ};

verus! {

/// The tight strategy: the nearest result, moved one step outward where the
/// sign of its error term shows that it lies on the wrong side.
///
/// Each operation takes the host's error-free transformation of its
/// operands and rounds the exact result in the requested direction, with
/// every special value handled.
pub struct EmulationRegular;

/// Upward rounding of a ratio from its error-free pair, where the pair's
/// infinities stand for infinite operands or for overflow.
fn ratio_up(e: Ghost<Exact>, operand_infinite: bool, s: ErrorFreePair) -> (r: Binary64)
    requires
        s.is_error_free(e@),
        e@.is_well_formed(),
        e@ is Ratio || !e@.is_real(),
        is_neg_inf(s.rounded) ==> (operand_infinite <==> e@ is NegInf),
    ensures
        rounded_up(e@, r),
{
    let x = s.rounded;
    proof {
        if e@.is_real() {
            lemma_beyond_range(e@);
            lemma_all_values_bounded();
            if x.is_finite() {
                lemma_step_up(e@, x);
                lemma_error_sign(e@, x, s.error);
                lemma_value_sign(s.error);
            }
        }
    }
    if x.bits == INF_BITS {
        x
    } else if x.bits == NEG_INF_BITS {
        if operand_infinite {
            x
        } else {
            Binary64::min_value()
        }
    } else if s.error.is_positive() {
        succ(x)
    } else {
        x
    }
}

/// Downward rounding of a ratio from its error-free pair; the mirror of
/// `ratio_up`.
fn ratio_down(e: Ghost<Exact>, operand_infinite: bool, s: ErrorFreePair) -> (r: Binary64)
    requires
        s.is_error_free(e@),
        e@.is_well_formed(),
        e@ is Ratio || !e@.is_real(),
        is_pos_inf(s.rounded) ==> (operand_infinite <==> e@ is PosInf),
    ensures
        rounded_down(e@, r),
{
    let x = s.rounded;
    proof {
        if e@.is_real() {
            lemma_beyond_range(e@);
            lemma_all_values_bounded();
            if x.is_finite() {
                lemma_step_down(e@, x);
                lemma_error_sign(e@, x, s.error);
                lemma_value_sign(s.error);
            }
        }
    }
    if x.bits == NEG_INF_BITS {
        x
    } else if x.bits == INF_BITS {
        if operand_infinite {
            x
        } else {
            Binary64::max_value()
        }
    } else if s.error.is_negative_number() {
        pred(x)
    } else {
        x
    }
}

/// Magnitude pattern of 2^-969: below it the error term of a product may
/// be rounded away, and products are compared at a larger scale.
pub const SMALL_PRODUCT_BITS: u64 = 0x0360_0000_0000_0000;

/// Power of two by which the host scales each factor of a small product.
pub const PRODUCT_SCALE_EXP: u64 = 575;

/// The exact product `a * b` scaled by `2^(2 * PRODUCT_SCALE_EXP)`.
pub open spec fn scaled_product(a: Binary64, b: Binary64) -> Exact {
    Exact::Ratio { num: a.value() * b.value() * pow2(76), den: 1 }
}

/// What the host computes for a product: `p` is the TwoProduct of `a` and
/// `b`; where its rounded part is small and finite, `scaled` is the
/// TwoProduct of `a * 2^575` and `b * 2^575`, and `t` is that rounded part
/// times `2^575` twice, unless a factor is zero. Where the rounded part is
/// not small, `p` is exact.
pub open spec fn is_product_witness(
    a: Binary64,
    b: Binary64,
    p: ErrorFreePair,
    scaled: ErrorFreePair,
    t: Binary64,
) -> bool {
    let e = exact_product(a, b);
    let x = p.rounded;
    &&& is_nearby(e, x)
    &&& (e.is_real() && x.is_finite() && x.magnitude() > SMALL_PRODUCT_BITS) ==> p.is_error_free(e)
    &&& (e.is_real() && x.is_finite() && x.magnitude() <= SMALL_PRODUCT_BITS && !is_zero(a)
        && !is_zero(b)) ==> {
        &&& scaled.rounded.is_finite()
        &&& scaled.is_error_free(scaled_product(a, b))
        &&& t.is_finite()
        &&& t.value() == x.value() * pow2(1150)
    }
}

/// Which side of the exact product a small rounded part `x` lies on can be
/// read at the larger scale.
proof fn lemma_scaled_product_side(a: Binary64, b: Binary64, x: Binary64, t: Binary64)
    requires
        a.is_finite(),
        b.is_finite(),
        x.is_finite(),
        t.is_finite(),
        t.value() == x.value() * pow2(1150),
    ensures
        exact_product(a, b).at_most(x.value()) <==> scaled_product(a, b).at_most(t.value()),
        exact_product(a, b).at_least(x.value()) <==> scaled_product(a, b).at_least(t.value()),
{
    lemma_pow2_adds(1074, 76);
    lemma_pow2_pos(76);
    let p = pow2(1074) as int;
    let q = pow2(76) as int;
    let xv = x.value();
    let v = a.value() * b.value();
    assert(t.value() == xv * p * q) by (nonlinear_arith)
        requires
            t.value() == xv * (p * q),
    ;
    assert(xv * p >= v <==> xv * p * q >= v * q) by (nonlinear_arith)
        requires
            q > 0,
    ;
    assert(xv * p <= v <==> xv * p * q <= v * q) by (nonlinear_arith)
        requires
            q > 0,
    ;
}

/// The exact square of `r` scaled by `2^k`, as a ratio.
pub open spec fn scaled_square(r: Binary64, k: nat) -> Exact {
    Exact::Ratio { num: r.value() * r.value() * pow2(k), den: pow2(1074) as int }
}

/// What the host computes for a square root: `r` is the root of `a`
/// rounded to nearest. Where `r` is finite and the root real, for `a`
/// below 2^-969 in magnitude `scaled` is the TwoProduct of `r * 2^53` with
/// itself and `t` is `a * 2^106`; for other `a`, `p` is the TwoProduct of
/// `r` with itself.
pub open spec fn is_root_witness(
    a: Binary64,
    r: Binary64,
    p: ErrorFreePair,
    scaled: ErrorFreePair,
    t: Binary64,
) -> bool {
    let e = exact_sqrt(a);
    &&& is_nearby(e, r)
    &&& (e.is_real() && r.is_finite()) ==> if a.magnitude() < SMALL_PRODUCT_BITS {
        &&& scaled.rounded.is_finite()
        &&& scaled.is_error_free(scaled_square(r, 106))
        &&& t.is_finite()
        &&& t.value() == a.value() * pow2(106)
    } else {
        &&& p.rounded.is_finite()
        &&& p.is_error_free(scaled_square(r, 0))
    }
}

/// The root of a finite value is below the largest finite value.
pub(crate) proof fn lemma_root_in_range(a: Binary64)
    requires
        exact_sqrt(a).is_real(),
    ensures
        exact_sqrt(a).at_most(max_value()),
{
    lemma_value_bounded(a);
    lemma_pow2_strictly_increases(1074, 2045);
    lemma_pow2_pos(1074);
    let m = max_value();
    let u = pow2(1074) as int;
    assert(m == (BINADE + (BINADE - 1)) * pow2(2045));
    assert(m >= u) by (nonlinear_arith)
        requires
            m == (BINADE + (BINADE - 1)) * pow2(2045),
            pow2(2045) > u,
            u > 0,
    ;
    let av = a.value();
    assert(m * m >= av * u) by (nonlinear_arith)
        requires
            m >= u,
            u > 0,
            0 <= av <= m,
    ;
}

/// A root adjacent to the exact root is not negative.
pub(crate) proof fn lemma_root_not_negative(a: Binary64, r: Binary64)
    requires
        exact_sqrt(a).is_real(),
        is_adjacent(r, exact_sqrt(a)),
    ensures
        r.value() >= 0,
{
    let zero = Binary64 { bits: 0 };
    if r.value() < 0 {
        assert(zero.value() == 0);
        assert(zero.is_finite());
        assert(r.value() < zero.value());
    }
}

/// Comparing `a`, scaled by `2^k`, with the square of `r`, scaled
/// alike, tells on which side of the exact root of `a` the root `r` lies.
pub(crate) proof fn lemma_root_side(a: Binary64, r: Binary64, k: nat, t: Binary64)
    requires
        exact_sqrt(a).is_real(),
        r.is_finite(),
        r.value() >= 0,
        t.value() == a.value() * pow2(k),
    ensures
        !scaled_square(r, k).at_least(t.value()) <==> !exact_sqrt(a).at_most(r.value()),
        !scaled_square(r, k).at_most(t.value()) <==> !exact_sqrt(a).at_least(r.value()),
{
    lemma_pow2_pos(k);
    let q = pow2(k) as int;
    let u = pow2(1074) as int;
    let av = a.value();
    let rv = r.value();
    assert(av * q * u <= rv * rv * q <==> av * u <= rv * rv) by (nonlinear_arith)
        requires
            q > 0,
    ;
    assert(av * q * u >= rv * rv * q <==> av * u >= rv * rv) by (nonlinear_arith)
        requires
            q > 0,
    ;
    assert(t.value() * u == av * q * u) by (nonlinear_arith)
        requires
            t.value() == av * q,
    ;
    assert(av * u == a.value() * units_per_one());
}

/// Magnitude pattern of 2^918: a dividend below 2^-969 over a divisor of
/// at least this size has a quotient closer to zero than any subnormal.
pub const HUGE_DIVISOR_BITS: u64 = 0x7950_0000_0000_0000;

/// The exact product of a quotient `d` and a divisor `b` scaled by `2^k`.
pub open spec fn scaled_divisor_product(d: Binary64, b: Binary64, k: nat) -> Exact {
    Exact::Ratio { num: d.value() * b.value() * pow2(k), den: pow2(1074) as int }
}

/// What the host computes for a quotient: `d` is `a / b` rounded to
/// nearest. Where `a` and `b` are finite and not zero and `d` is finite:
/// for `a` below 2^-969 in magnitude and `b` below 2^918, `sp` is the
/// TwoProduct of `d` and `b * 2^105` and `sa` is `a * 2^105`; for other
/// `a`, `p` is the TwoProduct of `d` and `b`.
pub open spec fn is_quotient_witness(
    a: Binary64,
    b: Binary64,
    d: Binary64,
    p: ErrorFreePair,
    sp: ErrorFreePair,
    sa: Binary64,
) -> bool {
    &&& is_nearby(exact_quotient(a, b), d)
    &&& (a.is_finite() && b.is_finite() && !is_zero(a) && !is_zero(b) && d.is_finite()) ==> {
        if a.magnitude() < SMALL_PRODUCT_BITS {
            b.magnitude() < HUGE_DIVISOR_BITS ==> {
                &&& sp.rounded.is_finite()
                &&& sp.is_error_free(scaled_divisor_product(d, b, 105))
                &&& sa.is_finite()
                &&& sa.value() == a.value() * pow2(105)
            }
        } else {
            &&& p.rounded.is_finite()
            &&& p.is_error_free(scaled_divisor_product(d, b, 0))
        }
    }
}

/// Comparing the dividend, scaled by `2^k`, with the product of the
/// quotient `d` and the divisor, scaled alike, tells on which side of the
/// exact quotient `d` lies; the divisor's sign turns the comparison round.
pub(crate) proof fn lemma_quotient_side(a: Binary64, b: Binary64, d: Binary64, k: nat, t: Binary64)
    requires
        a.is_finite(),
        b.is_finite(),
        d.is_finite(),
        !is_zero(b),
        t.value() == a.value() * pow2(k),
    ensures
        ({
            let p = scaled_divisor_product(d, b, k);
            let q = exact_quotient(a, b);
            &&& b.value() > 0 ==> (!p.at_least(t.value()) <==> !q.at_most(d.value()))
            &&& b.value() > 0 ==> (!p.at_most(t.value()) <==> !q.at_least(d.value()))
            &&& b.value() < 0 ==> (!p.at_most(t.value()) <==> !q.at_most(d.value()))
            &&& b.value() < 0 ==> (!p.at_least(t.value()) <==> !q.at_least(d.value()))
        }),
{
    lemma_value_sign(b);
    lemma_pow2_pos(k);
    let q = pow2(k) as int;
    let u = pow2(1074) as int;
    let av = a.value();
    let bv = b.value();
    let dv = d.value();
    assert(t.value() * u == av * u * q) by (nonlinear_arith)
        requires
            t.value() == av * q,
    ;
    assert(av * u * q < dv * bv * q <==> av * u < dv * bv) by (nonlinear_arith)
        requires
            q > 0,
    ;
    assert(av * u * q > dv * bv * q <==> av * u > dv * bv) by (nonlinear_arith)
        requires
            q > 0,
    ;
    assert(dv * (-bv) == -(dv * bv)) by (nonlinear_arith);
    assert(dv * bv == bv * dv) by (nonlinear_arith);
    assert(-av * u == -(av * u)) by (nonlinear_arith);
}

/// A dividend below 2^-969 over a divisor of at least 2^918 gives a
/// quotient strictly between zero and the smallest subnormal, on the side
/// of its sign: upward it rounds to the smallest subnormal or to zero,
/// downward to zero or the negated smallest subnormal.
proof fn lemma_tiny_quotient(a: Binary64, b: Binary64, lo: Binary64, hi: Binary64)
    requires
        a.is_finite(),
        b.is_finite(),
        !is_zero(a),
        a.magnitude() < SMALL_PRODUCT_BITS,
        b.magnitude() >= HUGE_DIVISOR_BITS,
        lo.is_finite(),
        hi.is_finite(),
        a.is_negative() == b.is_negative() ==> lo.value() == 0 && hi.value() == 1,
        a.is_negative() != b.is_negative() ==> lo.value() == -1 && hi.value() == 0,
    ensures
        rounded_up(exact_quotient(a, b), hi),
        rounded_down(exact_quotient(a, b), lo),
{
    let e = exact_quotient(a, b);
    lemma_value_sign(a);
    lemma_value_sign(b);
    lemma_magnitude_value_strictly_increases(a.magnitude(), SMALL_PRODUCT_BITS as int);
    if b.magnitude() > HUGE_DIVISOR_BITS {
        lemma_magnitude_value_strictly_increases(HUGE_DIVISOR_BITS as int, b.magnitude());
    }
    lemma_pow2_adds(1074, 918);
    lemma_pow2_pos(1074);
    lemma_pow2_strictly_increases(105 + 1074, 1992);
    let u = pow2(1074) as int;
    let small = magnitude_value(SMALL_PRODUCT_BITS as int);
    let huge = magnitude_value(HUGE_DIVISOR_BITS as int);
    assert(small == BINADE * pow2(53));
    assert(huge == BINADE * pow2(1940));
    lemma_pow2_adds(52, 53);
    lemma_pow2_adds(52, 1940);
    vstd::arithmetic::power2::lemma2_to64();
    lemma_pow2_adds(105, 1074);
    vstd::arithmetic::power2::lemma2_to64_rest();
    assert(BINADE == pow2(52));
    assert(small == pow2(105));
    assert(huge == pow2(1992));
    assert(small * u < huge);
    let num = e->Ratio_num;
    let den = e->Ratio_den;
    let av = a.value();
    let bv = b.value();
    assert(den >= huge);
    assert(a.is_negative() == b.is_negative() ==> 0 < num < den) by (nonlinear_arith)
        requires
            bv > 0 ==> num == av * u && den == bv,
            bv < 0 ==> num == -av * u && den == -bv,
            bv != 0,
            a.is_negative() <==> av < 0,
            b.is_negative() <==> bv < 0,
            av != 0,
            den >= huge,
            -small < av < small,
            small * u < huge,
            u > 0,
    ;
    assert(a.is_negative() != b.is_negative() ==> -den < num < 0) by (nonlinear_arith)
        requires
            bv > 0 ==> num == av * u && den == bv,
            bv < 0 ==> num == -av * u && den == -bv,
            bv != 0,
            a.is_negative() <==> av < 0,
            b.is_negative() <==> bv < 0,
            av != 0,
            den >= huge,
            -small < av < small,
            small * u < huge,
            u > 0,
    ;
    assert forall|c: Binary64| #![trigger c.value()] c.is_finite() implies (e.at_most(c.value())
        ==> hi.value() <= c.value()) && (e.at_least(c.value()) ==> c.value() <= lo.value()) by {
        let cv = c.value();
        assert(cv * den >= num ==> cv >= hi.value()) by (nonlinear_arith)
            requires
                den > 0,
                0 < num < den ==> hi.value() == 1,
                -den < num < 0 ==> hi.value() == 0,
                0 < num < den || -den < num < 0,
        ;
        assert(cv * den <= num ==> cv <= lo.value()) by (nonlinear_arith)
            requires
                den > 0,
                0 < num < den ==> lo.value() == 0,
                -den < num < 0 ==> lo.value() == -1,
                0 < num < den || -den < num < 0,
        ;
    }
}

impl EmulationRegular {
    /// `a + b` rounded upward, from the host's TwoSum `s` of `a` and `b`.
    pub fn add_up(a: Binary64, b: Binary64, s: ErrorFreePair) -> (r: Binary64)
        requires
            s.is_error_free(exact_sum(a, b)),
        ensures
            rounded_up(exact_sum(a, b), r),
    {
        proof {
            lemma_exact_well_formed(a, b);
        }
        ratio_up(Ghost(exact_sum(a, b)), a.is_infinite_number() || b.is_infinite_number(), s)
    }

    /// `a + b` rounded downward, from the host's TwoSum `s` of `a` and `b`.
    pub fn add_down(a: Binary64, b: Binary64, s: ErrorFreePair) -> (r: Binary64)
        requires
            s.is_error_free(exact_sum(a, b)),
        ensures
            rounded_down(exact_sum(a, b), r),
    {
        proof {
            lemma_exact_well_formed(a, b);
        }
        ratio_down(Ghost(exact_sum(a, b)), a.is_infinite_number() || b.is_infinite_number(), s)
    }

    /// `a * b` rounded upward, from the host's products of `a` and `b`.
    pub fn mul_up(
        a: Binary64,
        b: Binary64,
        p: ErrorFreePair,
        scaled: ErrorFreePair,
        t: Binary64,
    ) -> (r: Binary64)
        requires
            is_product_witness(a, b, p, scaled, t),
        ensures
            rounded_up(exact_product(a, b), r),
    {
        let ghost e = exact_product(a, b);
        let x = p.rounded;
        proof {
            lemma_exact_well_formed(a, b);
            if e.is_real() {
                lemma_beyond_range(e);
                lemma_all_values_bounded();
                if x.is_finite() {
                    lemma_step_up(e, x);
                    if x.magnitude() > SMALL_PRODUCT_BITS {
                        lemma_error_sign(e, x, p.error);
                        lemma_value_sign(p.error);
                    } else if !is_zero(a) && !is_zero(b) {
                        lemma_scaled_product_side(a, b, x, t);
                        lemma_pair_compare(scaled_product(a, b), t, scaled);
                    } else {
                        let zero = Binary64 { bits: 0 };
                        lemma_value_sign(a);
                        lemma_value_sign(b);
                        assert(zero.value() == 0);
                        assert(a.value() * b.value() == 0) by (nonlinear_arith)
                            requires
                                a.value() == 0 || b.value() == 0,
                        ;
                        assert(e.at_most(zero.value()) && e.at_least(zero.value()));
                    }
                }
            }
        }
        if x.bits == INF_BITS {
            x
        } else if x.bits == NEG_INF_BITS {
            if a.is_infinite_number() || b.is_infinite_number() {
                x
            } else {
                Binary64::min_value()
            }
        } else if x.magnitude_bits() > SMALL_PRODUCT_BITS {
            if p.error.is_positive() {
                succ(x)
            } else {
                x
            }
        } else if a.is_zero_number() || b.is_zero_number() {
            x
        } else if t.lt(scaled.rounded) || (t.eq_number(scaled.rounded)
            && scaled.error.is_positive()) {
            succ(x)
        } else {
            x
        }
    }

    /// `a * b` rounded downward, from the host's products of `a` and `b`.
    pub fn mul_down(
        a: Binary64,
        b: Binary64,
        p: ErrorFreePair,
        scaled: ErrorFreePair,
        t: Binary64,
    ) -> (r: Binary64)
        requires
            is_product_witness(a, b, p, scaled, t),
        ensures
            rounded_down(exact_product(a, b), r),
    {
        let ghost e = exact_product(a, b);
        let x = p.rounded;
        proof {
            lemma_exact_well_formed(a, b);
            if e.is_real() {
                lemma_beyond_range(e);
                lemma_all_values_bounded();
                if x.is_finite() {
                    lemma_step_down(e, x);
                    if x.magnitude() > SMALL_PRODUCT_BITS {
                        lemma_error_sign(e, x, p.error);
                        lemma_value_sign(p.error);
                    } else if !is_zero(a) && !is_zero(b) {
                        lemma_scaled_product_side(a, b, x, t);
                        lemma_pair_compare(scaled_product(a, b), t, scaled);
                    } else {
                        let zero = Binary64 { bits: 0 };
                        lemma_value_sign(a);
                        lemma_value_sign(b);
                        assert(zero.value() == 0);
                        assert(a.value() * b.value() == 0) by (nonlinear_arith)
                            requires
                                a.value() == 0 || b.value() == 0,
                        ;
                        assert(e.at_most(zero.value()) && e.at_least(zero.value()));
                    }
                }
            }
        }
        if x.bits == NEG_INF_BITS {
            x
        } else if x.bits == INF_BITS {
            if a.is_infinite_number() || b.is_infinite_number() {
                x
            } else {
                Binary64::max_value()
            }
        } else if x.magnitude_bits() > SMALL_PRODUCT_BITS {
            if p.error.is_negative_number() {
                pred(x)
            } else {
                x
            }
        } else if a.is_zero_number() || b.is_zero_number() {
            x
        } else if scaled.rounded.lt(t) || (t.eq_number(scaled.rounded)
            && scaled.error.is_negative_number()) {
            pred(x)
        } else {
            x
        }
    }

    /// The square root of `a` rounded upward, from the host's root `r` and
    /// squares of it.
    pub fn sqrt_up(
        a: Binary64,
        r: Binary64,
        p: ErrorFreePair,
        scaled: ErrorFreePair,
        t: Binary64,
    ) -> (res: Binary64)
        requires
            is_root_witness(a, r, p, scaled, t),
        ensures
            rounded_up(exact_sqrt(a), res),
    {
        let ghost e = exact_sqrt(a);
        proof {
            lemma_exact_well_formed(a, a);
            if e.is_real() && r.is_finite() {
                lemma_step_up(e, r);
                lemma_root_not_negative(a, r);
                if a.magnitude() < SMALL_PRODUCT_BITS {
                    lemma_root_side(a, r, 106, t);
                    lemma_pair_compare(scaled_square(r, 106), t, scaled);
                } else {
                    lemma_unscaled(a.value());
                    lemma_root_side(a, r, 0, a);
                    lemma_pair_compare(scaled_square(r, 0), a, p);
                }
            }
            if e.is_real() {
                lemma_root_in_range(a);
            }
        }
        if r.is_nan_number() || r.is_infinite_number() {
            r
        } else if a.magnitude_bits() < SMALL_PRODUCT_BITS {
            if scaled.rounded.lt(t) || (t.eq_number(scaled.rounded)
                && scaled.error.is_negative_number()) {
                succ(r)
            } else {
                r
            }
        } else if p.rounded.lt(a) || (a.eq_number(p.rounded) && p.error.is_negative_number()) {
            succ(r)
        } else {
            r
        }
    }

    /// The square root of `a` rounded downward, from the host's root `r`
    /// and squares of it.
    pub fn sqrt_down(
        a: Binary64,
        r: Binary64,
        p: ErrorFreePair,
        scaled: ErrorFreePair,
        t: Binary64,
    ) -> (res: Binary64)
        requires
            is_root_witness(a, r, p, scaled, t),
        ensures
            rounded_down(exact_sqrt(a), res),
    {
        let ghost e = exact_sqrt(a);
        proof {
            lemma_exact_well_formed(a, a);
            if e.is_real() && r.is_finite() {
                lemma_step_down(e, r);
                lemma_root_not_negative(a, r);
                if a.magnitude() < SMALL_PRODUCT_BITS {
                    lemma_root_side(a, r, 106, t);
                    lemma_pair_compare(scaled_square(r, 106), t, scaled);
                } else {
                    lemma_unscaled(a.value());
                    lemma_root_side(a, r, 0, a);
                    lemma_pair_compare(scaled_square(r, 0), a, p);
                }
            }
            if e.is_real() {
                lemma_root_in_range(a);
            }
        }
        if r.is_nan_number() || r.is_infinite_number() {
            r
        } else if a.magnitude_bits() < SMALL_PRODUCT_BITS {
            if t.lt(scaled.rounded) || (t.eq_number(scaled.rounded)
                && scaled.error.is_positive()) {
                pred(r)
            } else {
                r
            }
        } else if a.lt(p.rounded) || (a.eq_number(p.rounded) && p.error.is_positive()) {
            pred(r)
        } else {
            r
        }
    }

    /// `a / b` rounded upward, from the host's quotient `d` of `a` and `b`
    /// and products of it with the divisor.
    pub fn div_up(
        a: Binary64,
        b: Binary64,
        d: Binary64,
        p: ErrorFreePair,
        sp: ErrorFreePair,
        sa: Binary64,
    ) -> (r: Binary64)
        requires
            is_quotient_witness(a, b, d, p, sp, sa),
        ensures
            rounded_up(exact_quotient(a, b), r),
    {
        let ghost e = exact_quotient(a, b);
        let ghost zero = Binary64 { bits: 0 };
        let ghost unit = Binary64 { bits: 1 };
        let ghost neg_unit = Binary64 { bits: (SIGN_BIT + 1) as u64 };
        proof {
            lemma_exact_well_formed(a, b);
            assert(zero.value() == 0);
            assert(unit.value() == 1);
            assert(neg_unit.value() == -1);
            if e.is_real() {
                lemma_beyond_range(e);
                lemma_all_values_bounded();
            }
        }
        if a.is_zero_number() || b.is_zero_number() || a.is_infinite_number()
            || b.is_infinite_number() || a.is_nan_number() || b.is_nan_number() {
            proof {
                if e.is_real() {
                    assert(e.at_most(zero.value()) && e.at_least(zero.value()));
                    assert(d.value() == 0);
                }
            }
            d
        } else if a.magnitude_bits() < SMALL_PRODUCT_BITS && b.magnitude_bits()
            >= HUGE_DIVISOR_BITS {
            proof {
                lemma_value_sign(a);
                lemma_value_sign(b);
                if a.is_negative() == b.is_negative() {
                    lemma_tiny_quotient(a, b, zero, unit);
                } else {
                    lemma_tiny_quotient(a, b, neg_unit, zero);
                }
            }
            if a.is_negative_number() != b.is_negative_number() {
                Binary64::zero()
            } else {
                Binary64::unit_underflow()
            }
        } else if d.bits == INF_BITS {
            d
        } else if d.bits == NEG_INF_BITS {
            Binary64::min_value()
        } else {
            let small = a.magnitude_bits() < SMALL_PRODUCT_BITS;
            let t = if small { sa } else { a };
            let s = if small { sp } else { p };
            proof {
                lemma_step_up(e, d);
                lemma_value_sign(b);
                if small {
                    lemma_quotient_side(a, b, d, 105, t);
                    lemma_pair_compare(scaled_divisor_product(d, b, 105), t, s);
                } else {
                    lemma_unscaled(a.value());
                    lemma_quotient_side(a, b, d, 0, t);
                    lemma_pair_compare(scaled_divisor_product(d, b, 0), t, s);
                }
            }
            let step = if b.is_positive() {
                s.rounded.lt(t) || (t.eq_number(s.rounded) && s.error.is_negative_number())
            } else {
                t.lt(s.rounded) || (t.eq_number(s.rounded) && s.error.is_positive())
            };
            if step {
                succ(d)
            } else {
                d
            }
        }
    }

    /// `a / b` rounded downward, from the host's quotient `d` of `a` and `b`
    /// and products of it with the divisor.
    pub fn div_down(
        a: Binary64,
        b: Binary64,
        d: Binary64,
        p: ErrorFreePair,
        sp: ErrorFreePair,
        sa: Binary64,
    ) -> (r: Binary64)
        requires
            is_quotient_witness(a, b, d, p, sp, sa),
        ensures
            rounded_down(exact_quotient(a, b), r),
    {
        let ghost e = exact_quotient(a, b);
        let ghost zero = Binary64 { bits: 0 };
        let ghost unit = Binary64 { bits: 1 };
        let ghost neg_unit = Binary64 { bits: (SIGN_BIT + 1) as u64 };
        proof {
            lemma_exact_well_formed(a, b);
            assert(zero.value() == 0);
            assert(unit.value() == 1);
            assert(neg_unit.value() == -1);
            if e.is_real() {
                lemma_beyond_range(e);
                lemma_all_values_bounded();
            }
        }
        if a.is_zero_number() || b.is_zero_number() || a.is_infinite_number()
            || b.is_infinite_number() || a.is_nan_number() || b.is_nan_number() {
            proof {
                if e.is_real() {
                    assert(e.at_most(zero.value()) && e.at_least(zero.value()));
                    assert(d.value() == 0);
                }
            }
            d
        } else if a.magnitude_bits() < SMALL_PRODUCT_BITS && b.magnitude_bits()
            >= HUGE_DIVISOR_BITS {
            proof {
                lemma_value_sign(a);
                lemma_value_sign(b);
                if a.is_negative() == b.is_negative() {
                    lemma_tiny_quotient(a, b, zero, unit);
                } else {
                    lemma_tiny_quotient(a, b, neg_unit, zero);
                }
            }
            if a.is_negative_number() != b.is_negative_number() {
                Binary64::neg_unit_underflow()
            } else {
                Binary64::zero()
            }
        } else if d.bits == NEG_INF_BITS {
            d
        } else if d.bits == INF_BITS {
            Binary64::max_value()
        } else {
            let small = a.magnitude_bits() < SMALL_PRODUCT_BITS;
            let t = if small { sa } else { a };
            let s = if small { sp } else { p };
            proof {
                lemma_step_down(e, d);
                lemma_value_sign(b);
                if small {
                    lemma_quotient_side(a, b, d, 105, t);
                    lemma_pair_compare(scaled_divisor_product(d, b, 105), t, s);
                } else {
                    lemma_unscaled(a.value());
                    lemma_quotient_side(a, b, d, 0, t);
                    lemma_pair_compare(scaled_divisor_product(d, b, 0), t, s);
                }
            }
            let step = if b.is_positive() {
                t.lt(s.rounded) || (t.eq_number(s.rounded) && s.error.is_positive())
            } else {
                s.rounded.lt(t) || (t.eq_number(s.rounded) && s.error.is_negative_number())
            };
            if step {
                pred(d)
            } else {
                d
            }
        }
    }

    /// `a - b` rounded upward, from the host's TwoSum `s` of `a` and `-b`.
    pub fn sub_up(a: Binary64, b: Binary64, s: ErrorFreePair) -> (r: Binary64)
        requires
            s.is_error_free(exact_difference(a, b)),
        ensures
            rounded_up(exact_difference(a, b), r),
    {
        proof {
            lemma_difference_is_sum_of_negation(a, b);
        }
        Self::add_up(a, b.neg(), s)
    }

    /// `a - b` rounded downward, from the host's TwoSum `s` of `a` and `-b`.
    pub fn sub_down(a: Binary64, b: Binary64, s: ErrorFreePair) -> (r: Binary64)
        requires
            s.is_error_free(exact_difference(a, b)),
        ensures
            rounded_down(exact_difference(a, b), r),
    {
        proof {
            lemma_difference_is_sum_of_negation(a, b);
        }
        Self::add_down(a, b.neg(), s)
    }
}

} // verus!
