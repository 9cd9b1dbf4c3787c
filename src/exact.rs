use vstd::prelude::*;
use vstd::arithmetic::power2::{pow2, lemma_pow2_pos};
use crate::binary64::{
    Binary64, INF_BITS, NEG_INF_BITS, lemma_negated, lemma_value_order, lemma_value_sign,
};
use crate::ulp::{succ_of, lemma_succ_rank};

verus! {

/// The exact mathematical result of an operation on binary64 operands.
///
/// Real results are measured in units of 2^-1074, the spacing of the
/// subnormals, so that every finite operand is an integer.
pub enum Exact {
    /// No number: a NaN operand, or an undefined form such as 0/0.
    Undefined,
    PosInf,
    NegInf,
    /// The real number `num / den`, with `den > 0`.
    Ratio { num: int, den: int },
    /// The non-negative square root of `square`, with `square >= 0`.
    Root { square: int },
}

impl Exact {
    pub open spec fn is_real(self) -> bool {
        match self {
            Exact::Ratio { num, den } => den > 0,
            Exact::Root { square } => square >= 0,
            _ => false,
        }
    }

    /// A real result with a positive denominator or a non-negative square, or
    /// one of the three results that are not real.
    pub open spec fn is_well_formed(self) -> bool {
        self.is_real() || self is Undefined || self is PosInf || self is NegInf
    }

    /// `c` is at least the exact result.
    pub open spec fn at_most(self, c: int) -> bool {
        match self {
            Exact::Ratio { num, den } => c * den >= num,
            Exact::Root { square } => c >= 0 && c * c >= square,
            _ => false,
        }
    }

    /// `c` is at most the exact result.
    pub open spec fn at_least(self, c: int) -> bool {
        match self {
            Exact::Ratio { num, den } => c * den <= num,
            Exact::Root { square } => c < 0 || c * c <= square,
            _ => false,
        }
    }
}

/// Number of units of 2^-1074 in one.
pub open spec fn units_per_one() -> int {
    pow2(1074) as int
}

pub open spec fn is_zero(x: Binary64) -> bool {
    x.magnitude() == 0
}

pub open spec fn is_pos_inf(x: Binary64) -> bool {
    x.bits == INF_BITS
}

pub open spec fn is_neg_inf(x: Binary64) -> bool {
    x.bits == NEG_INF_BITS
}

/// The exact value of `a + b`.
pub open spec fn exact_sum(a: Binary64, b: Binary64) -> Exact {
    if a.is_nan() || b.is_nan() || (is_pos_inf(a) && is_neg_inf(b)) || (is_neg_inf(a)
        && is_pos_inf(b)) {
        Exact::Undefined
    } else if is_pos_inf(a) || is_pos_inf(b) {
        Exact::PosInf
    } else if is_neg_inf(a) || is_neg_inf(b) {
        Exact::NegInf
    } else {
        Exact::Ratio { num: a.value() + b.value(), den: 1 }
    }
}

/// The exact value of `a - b`.
pub open spec fn exact_difference(a: Binary64, b: Binary64) -> Exact {
    if a.is_nan() || b.is_nan() || (is_pos_inf(a) && is_pos_inf(b)) || (is_neg_inf(a)
        && is_neg_inf(b)) {
        Exact::Undefined
    } else if is_pos_inf(a) || is_neg_inf(b) {
        Exact::PosInf
    } else if is_neg_inf(a) || is_pos_inf(b) {
        Exact::NegInf
    } else {
        Exact::Ratio { num: a.value() - b.value(), den: 1 }
    }
}

/// The exact value of `a * b`.
pub open spec fn exact_product(a: Binary64, b: Binary64) -> Exact {
    if a.is_nan() || b.is_nan() || (a.is_infinite() && is_zero(b)) || (is_zero(a)
        && b.is_infinite()) {
        Exact::Undefined
    } else if a.is_infinite() || b.is_infinite() {
        if a.is_negative() != b.is_negative() {
            Exact::NegInf
        } else {
            Exact::PosInf
        }
    } else {
        Exact::Ratio { num: a.value() * b.value(), den: units_per_one() }
    }
}

/// The exact value of `a / b`; a non-zero dividend over a zero divisor is
/// the infinity signed by both signs, zero's included.
pub open spec fn exact_quotient(a: Binary64, b: Binary64) -> Exact {
    if a.is_nan() || b.is_nan() || (is_zero(a) && is_zero(b)) || (a.is_infinite()
        && b.is_infinite()) {
        Exact::Undefined
    } else if a.is_infinite() || is_zero(b) {
        if a.is_negative() != b.is_negative() {
            Exact::NegInf
        } else {
            Exact::PosInf
        }
    } else if b.is_infinite() {
        Exact::Ratio { num: 0, den: 1 }
    } else if b.value() > 0 {
        Exact::Ratio { num: a.value() * units_per_one(), den: b.value() }
    } else {
        Exact::Ratio { num: -a.value() * units_per_one(), den: -b.value() }
    }
}

/// The exact square root of `a`.
pub open spec fn exact_sqrt(a: Binary64) -> Exact {
    if a.is_nan() || (a.is_negative() && !is_zero(a)) {
        Exact::Undefined
    } else if a.is_infinite() {
        Exact::PosInf
    } else {
        Exact::Root { square: a.value() * units_per_one() }
    }
}

/// The exact results of the operations are well formed.
pub proof fn lemma_exact_well_formed(a: Binary64, b: Binary64)
    ensures
        exact_sum(a, b).is_well_formed(),
        exact_difference(a, b).is_well_formed(),
        exact_product(a, b).is_well_formed(),
        exact_quotient(a, b).is_well_formed(),
        exact_sqrt(a).is_well_formed(),
{
    lemma_pow2_pos(1074);
    if a.is_finite() {
        lemma_value_sign(a);
        if !a.is_negative() {
            let v = a.value();
            let u = units_per_one();
            assert(v * u >= 0) by (nonlinear_arith)
                requires
                    v >= 0,
                    u > 0,
            ;
        }
    }
    if b.is_finite() {
        lemma_value_sign(b);
    }
}

/// `r` is the least value at or above the real `e`: positive infinity when
/// `e` exceeds every finite value.
pub open spec fn is_least_above(e: Exact, r: Binary64) -> bool {
    if r.is_finite() {
        &&& e.at_most(r.value())
        &&& forall|c: Binary64|
            #![trigger c.value()]
            c.is_finite() && e.at_most(c.value()) ==> r.value() <= c.value()
    } else {
        &&& is_pos_inf(r)
        &&& forall|c: Binary64| #![trigger c.value()] c.is_finite() ==> !e.at_most(c.value())
    }
}

/// `r` is the greatest value at or below the real `e`: negative infinity
/// when `e` is below every finite value.
pub open spec fn is_greatest_below(e: Exact, r: Binary64) -> bool {
    if r.is_finite() {
        &&& e.at_least(r.value())
        &&& forall|c: Binary64|
            #![trigger c.value()]
            c.is_finite() && e.at_least(c.value()) ==> c.value() <= r.value()
    } else {
        &&& is_neg_inf(r)
        &&& forall|c: Binary64| #![trigger c.value()] c.is_finite() ==> !e.at_least(c.value())
    }
}

/// `r` is `e` rounded toward positive infinity.
pub open spec fn rounded_up(e: Exact, r: Binary64) -> bool {
    match e {
        Exact::Undefined => r.is_nan(),
        Exact::PosInf => is_pos_inf(r),
        Exact::NegInf => is_neg_inf(r),
        _ => is_least_above(e, r),
    }
}

/// `r` is `e` rounded toward negative infinity.
pub open spec fn rounded_down(e: Exact, r: Binary64) -> bool {
    match e {
        Exact::Undefined => r.is_nan(),
        Exact::PosInf => is_pos_inf(r),
        Exact::NegInf => is_neg_inf(r),
        _ => is_greatest_below(e, r),
    }
}

/// `r` is a valid upper bound of `e`: NaN for an undefined result, the
/// infinity of an infinite one, and for a real result a finite value at or
/// above it, or positive infinity.
pub open spec fn is_upper_bound(e: Exact, r: Binary64) -> bool {
    match e {
        Exact::Undefined => r.is_nan(),
        Exact::PosInf => is_pos_inf(r),
        Exact::NegInf => is_neg_inf(r),
        _ => is_pos_inf(r) || (r.is_finite() && e.at_most(r.value())),
    }
}

/// `r` is a valid lower bound of `e`; the mirror of `is_upper_bound`.
pub open spec fn is_lower_bound(e: Exact, r: Binary64) -> bool {
    match e {
        Exact::Undefined => r.is_nan(),
        Exact::PosInf => is_pos_inf(r),
        Exact::NegInf => is_neg_inf(r),
        _ => is_neg_inf(r) || (r.is_finite() && e.at_least(r.value())),
    }
}

/// `r` lies at or above `s` on the extended line, or both are NaN.
pub open spec fn at_or_above(r: Binary64, s: Binary64) -> bool {
    ||| (!r.is_nan() && !s.is_nan() && r.rank() >= s.rank())
    ||| (r.is_nan() && s.is_nan())
}

/// `x` is finite and no finite value lies strictly between `x` and the real
/// `e`; where `e` itself is a finite value, `x` is that value.
///
/// A result rounded to nearest has this property whenever it is finite.
pub open spec fn is_adjacent(x: Binary64, e: Exact) -> bool {
    &&& x.is_finite()
    &&& forall|c: Binary64|
        #![trigger c.value()]
        c.is_finite() ==> {
            &&& x.value() < c.value() ==> e.at_most(c.value())
            &&& c.value() < x.value() ==> e.at_least(c.value())
            &&& e.at_most(c.value()) && e.at_least(c.value()) ==> c.value() == x.value()
        }
}

/// Two patterns stand for the same number: equal finite values, the same
/// infinity, or both NaN.
pub open spec fn same_number(x: Binary64, y: Binary64) -> bool {
    ||| (x.is_finite() && y.is_finite() && x.value() == y.value())
    ||| (x.is_infinite() && x == y)
    ||| (x.is_nan() && y.is_nan())
}

proof fn lemma_real_order(e: Exact, lo: int, hi: int)
    requires
        e.is_real(),
        e.at_least(lo),
        e.at_most(hi),
    ensures
        lo <= hi,
{
    match e {
        Exact::Ratio { num, den } => {
            assert(lo <= hi) by (nonlinear_arith)
                requires
                    den > 0,
                    lo * den <= num,
                    hi * den >= num,
            ;
        },
        Exact::Root { square } => {
            if lo >= 0 {
                assert(lo <= hi) by (nonlinear_arith)
                    requires
                        lo >= 0,
                        hi >= 0,
                        lo * lo <= square,
                        hi * hi >= square,
                ;
            }
        },
        _ => {},
    }
}

proof fn lemma_real_total(e: Exact, c: int)
    requires
        e.is_real(),
    ensures
        e.at_least(c) || e.at_most(c),
{
}

/// Directed rounding brackets the exact result: where both directions give
/// finite values, the downward one is at most the exact result and the
/// upward one at least.
pub proof fn lemma_rounding_brackets(e: Exact, lo: Binary64, hi: Binary64)
    requires
        e.is_real(),
        rounded_down(e, lo),
        rounded_up(e, hi),
        lo.is_finite(),
        hi.is_finite(),
    ensures
        e.at_least(lo.value()),
        e.at_most(hi.value()),
        lo.value() <= hi.value(),
{
    lemma_real_order(e, lo.value(), hi.value());
}

/// Directed rounding is tight: where the downward result is finite, the
/// upward result is the same number or the successor of the downward one.
pub proof fn lemma_rounding_tight(e: Exact, lo: Binary64, hi: Binary64)
    requires
        e.is_real(),
        rounded_down(e, lo),
        rounded_up(e, hi),
        lo.is_finite(),
    ensures
        same_number(hi, lo) || same_number(hi, succ_of(lo)),
{
    lemma_succ_rank(lo);
    if hi.is_finite() {
        lemma_real_order(e, lo.value(), hi.value());
        lemma_value_order(lo, hi);
        if !lo.is_max() {
            let m = succ_of(lo);
            lemma_value_order(lo, m);
            lemma_value_order(m, hi);
            lemma_real_total(e, m.value());
        }
    } else {
        if !lo.is_max() {
            let m = succ_of(lo);
            lemma_real_total(e, m.value());
            lemma_value_order(lo, m);
            assert(!e.at_most(m.value()));
        }
    }
}

/// Directed rounding is a function of the exact result, up to the sign of
/// zero and the payload of NaN.
pub proof fn lemma_rounding_unique(e: Exact, r1: Binary64, r2: Binary64)
    ensures
        rounded_up(e, r1) && rounded_up(e, r2) ==> same_number(r1, r2),
        rounded_down(e, r1) && rounded_down(e, r2) ==> same_number(r1, r2),
{
    if rounded_up(e, r1) && rounded_up(e, r2) && e.is_real() {
        if r1.is_finite() && r2.is_finite() {
            assert(r1.value() <= r2.value());
            assert(r2.value() <= r1.value());
        } else if r1.is_finite() {
            assert(!e.at_most(r1.value()));
        } else if r2.is_finite() {
            assert(!e.at_most(r2.value()));
        }
    }
    if rounded_down(e, r1) && rounded_down(e, r2) && e.is_real() {
        if r1.is_finite() && r2.is_finite() {
            assert(r1.value() <= r2.value());
            assert(r2.value() <= r1.value());
        } else if r1.is_finite() {
            assert(!e.at_least(r1.value()));
        } else if r2.is_finite() {
            assert(!e.at_least(r2.value()));
        }
    }
}

/// A NaN operand makes every exact result undefined, so that both directed
/// roundings of it are NaN.
pub proof fn lemma_nan_propagates(a: Binary64, b: Binary64)
    requires
        a.is_nan() || b.is_nan(),
    ensures
        exact_sum(a, b) == Exact::Undefined,
        exact_difference(a, b) == Exact::Undefined,
        exact_product(a, b) == Exact::Undefined,
        exact_quotient(a, b) == Exact::Undefined,
        a.is_nan() ==> exact_sqrt(a) == Exact::Undefined,
        forall|r: Binary64|
            rounded_up(Exact::Undefined, r) || rounded_down(Exact::Undefined, r) ==> r.is_nan(),
{
}

/// Subtracting `b` is adding its negation, in both directions: the results
/// are the same number.
pub proof fn lemma_difference_is_sum_of_negation(a: Binary64, b: Binary64)
    ensures
        exact_difference(a, b) == exact_sum(a, b.negated()),
        forall|r1: Binary64, r2: Binary64|
            rounded_up(exact_difference(a, b), r1) && rounded_up(exact_sum(a, b.negated()), r2)
                ==> same_number(r1, r2),
        forall|r1: Binary64, r2: Binary64|
            rounded_down(exact_difference(a, b), r1) && rounded_down(
                exact_sum(a, b.negated()),
                r2,
            ) ==> same_number(r1, r2),
{
    lemma_negated(b);
    assert forall|r1: Binary64, r2: Binary64|
        rounded_up(exact_difference(a, b), r1) && rounded_up(
            exact_sum(a, b.negated()),
            r2,
        ) implies same_number(r1, r2) by {
        lemma_rounding_unique(exact_difference(a, b), r1, r2);
    }
    assert forall|r1: Binary64, r2: Binary64|
        rounded_down(exact_difference(a, b), r1) && rounded_down(
            exact_sum(a, b.negated()),
            r2,
        ) implies same_number(r1, r2) by {
        lemma_rounding_unique(exact_difference(a, b), r1, r2);
    }
}

} // verus!
