use vstd::prelude::*;
use crate::binary64::{
    Binary64, INF_BITS, NEG_INF_BITS, lemma_all_values_bounded, lemma_value_order,
};
use crate::exact::{
    Exact, at_or_above, exact_difference, exact_product, exact_quotient, exact_sqrt, exact_sum,
    is_lower_bound, is_neg_inf, is_pos_inf, is_upper_bound, lemma_exact_well_formed,
    lemma_rounding_unique, rounded_down, rounded_up,
};
use crate::transform::{is_nearby, lemma_real_monotone, lemma_step_down, lemma_step_up};
use crate::ulp::{pred_of, succ_of, lemma_pred_is_next_below, lemma_succ_is_next_above};

verus! {

/// The cheap strategy: the nearest result, widened by a margin instead of
/// a step.
///
/// Each operation takes the host's result `x` rounded to nearest and the
/// host's widened value `w`: `x` plus (or minus) the margin
/// `eps/2 * (1 + eps) * |x| + 2^-1074`, evaluated in floating point. The
/// relative part exceeds half a step of `x` wherever `x` is normal and the
/// absolute part covers results near zero, so `w` lies at or beyond the
/// neighbour of `x` on its side. That, or `w` at or beyond an `x` that is
/// exact, is what the operations ask of it.
pub struct RoughWrapping;

/// `w` widens `x`, the nearest value of `e`, upward: NaN stays NaN,
/// positive infinity stays, and a finite `x` moves at least to its
/// successor, or, where `x` is `e` itself, at least stays.
pub open spec fn is_widened_up(e: Exact, x: Binary64, w: Binary64) -> bool {
    &&& x.is_nan() ==> w.is_nan()
    &&& is_pos_inf(x) ==> is_pos_inf(w)
    &&& x.is_finite() ==> !w.is_nan() && (at_or_above(w, succ_of(x)) || (e.at_most(x.value())
        && e.at_least(x.value()) && at_or_above(w, x)))
}

/// `w` widens `x` downward; the mirror of `is_widened_up`.
pub open spec fn is_widened_down(e: Exact, x: Binary64, w: Binary64) -> bool {
    &&& x.is_nan() ==> w.is_nan()
    &&& is_neg_inf(x) ==> is_neg_inf(w)
    &&& x.is_finite() ==> !w.is_nan() && (at_or_above(pred_of(x), w) || (e.at_most(x.value())
        && e.at_least(x.value()) && at_or_above(x, w)))
}

fn widen_up(e: Ghost<Exact>, operand_infinite: bool, x: Binary64, w: Binary64) -> (r: Binary64)
    requires
        e@.is_well_formed(),
        is_nearby(e@, x),
        is_widened_up(e@, x, w),
        is_neg_inf(x) ==> (operand_infinite <==> e@ is NegInf),
    ensures
        is_upper_bound(e@, r),
        forall|u: Binary64| rounded_up(e@, u) ==> at_or_above(r, u),
        !is_neg_inf(x) ==> r == w,
        is_neg_inf(x) && e@.is_real() ==> r.is_min(),
{
    proof {
        if e@.is_real() {
            lemma_all_values_bounded();
        }
        if e@.is_real() && x.is_finite() {
            lemma_step_up(e@, x);
            lemma_succ_is_next_above(x);
            let y = succ_of(x);
            if !x.is_max() {
                lemma_real_monotone(e@, x.value(), y.value());
                if w.is_finite() {
                    lemma_value_order(w, y);
                    if y.value() <= w.value() {
                        lemma_real_monotone(e@, y.value(), w.value());
                    }
                }
            }
            if w.is_finite() {
                lemma_value_order(w, x);
                if x.value() <= w.value() {
                    lemma_real_monotone(e@, x.value(), w.value());
                }
            }
            assert forall|u: Binary64| rounded_up(e@, u) implies at_or_above(w, u) by {
                if e@.at_most(x.value()) {
                    lemma_rounding_unique(e@, u, x);
                    lemma_value_order(u, x);
                } else {
                    lemma_rounding_unique(e@, u, y);
                    if y.is_finite() && u.is_finite() {
                        lemma_value_order(u, y);
                    }
                }
            }
        }
    }
    if x.bits == NEG_INF_BITS {
        if operand_infinite {
            x
        } else {
            let m = Binary64::min_value();
            proof {
                assert forall|u: Binary64| rounded_up(e@, u) implies at_or_above(m, u) by {
                    assert(rounded_up(e@, m));
                    lemma_rounding_unique(e@, u, m);
                    if u.is_finite() {
                        lemma_value_order(u, m);
                    }
                }
            }
            m
        }
    } else {
        w
    }
}

fn widen_down(e: Ghost<Exact>, operand_infinite: bool, x: Binary64, w: Binary64) -> (r: Binary64)
    requires
        e@.is_well_formed(),
        is_nearby(e@, x),
        is_widened_down(e@, x, w),
        is_pos_inf(x) ==> (operand_infinite <==> e@ is PosInf),
    ensures
        is_lower_bound(e@, r),
        forall|u: Binary64| rounded_down(e@, u) ==> at_or_above(u, r),
        !is_pos_inf(x) ==> r == w,
        is_pos_inf(x) && e@.is_real() ==> r.is_max(),
{
    proof {
        if e@.is_real() {
            lemma_all_values_bounded();
        }
        if e@.is_real() && x.is_finite() {
            lemma_step_down(e@, x);
            lemma_pred_is_next_below(x);
            let y = pred_of(x);
            if !x.is_min() {
                lemma_real_monotone(e@, y.value(), x.value());
                if w.is_finite() {
                    lemma_value_order(w, y);
                    if w.value() <= y.value() {
                        lemma_real_monotone(e@, w.value(), y.value());
                    }
                }
            }
            if w.is_finite() {
                lemma_value_order(w, x);
                if w.value() <= x.value() {
                    lemma_real_monotone(e@, w.value(), x.value());
                }
            }
            assert forall|u: Binary64| rounded_down(e@, u) implies at_or_above(u, w) by {
                if e@.at_least(x.value()) {
                    lemma_rounding_unique(e@, u, x);
                    lemma_value_order(u, x);
                } else {
                    lemma_rounding_unique(e@, u, y);
                    if y.is_finite() && u.is_finite() {
                        lemma_value_order(u, y);
                    }
                }
            }
        }
    }
    if x.bits == INF_BITS {
        if operand_infinite {
            x
        } else {
            let m = Binary64::max_value();
            proof {
                assert forall|u: Binary64| rounded_down(e@, u) implies at_or_above(u, m) by {
                    assert(rounded_down(e@, m));
                    lemma_rounding_unique(e@, u, m);
                    if u.is_finite() {
                        lemma_value_order(u, m);
                    }
                }
            }
            m
        }
    } else {
        w
    }
}

impl RoughWrapping {
    /// Upper bound of `a + b` from its nearest value `x` and the widened `w`;
    /// it contains the tight bound.
    pub fn add_up(a: Binary64, b: Binary64, x: Binary64, w: Binary64) -> (r: Binary64)
        requires
            is_nearby(exact_sum(a, b), x),
            is_widened_up(exact_sum(a, b), x, w),
        ensures
            is_upper_bound(exact_sum(a, b), r),
            forall|u: Binary64| rounded_up(exact_sum(a, b), u) ==> at_or_above(r, u),
            !is_neg_inf(x) ==> r == w,
            is_neg_inf(x) && exact_sum(a, b).is_real() ==> r.is_min(),
    {
        proof {
            lemma_exact_well_formed(a, b);
        }
        widen_up(
            Ghost(exact_sum(a, b)),
            a.is_infinite_number() || b.is_infinite_number(),
            x,
            w,
        )
    }

    /// Lower bound of `a + b` from its nearest value `x` and the widened `w`;
    /// it contains the tight bound.
    pub fn add_down(a: Binary64, b: Binary64, x: Binary64, w: Binary64) -> (r: Binary64)
        requires
            is_nearby(exact_sum(a, b), x),
            is_widened_down(exact_sum(a, b), x, w),
        ensures
            is_lower_bound(exact_sum(a, b), r),
            forall|u: Binary64| rounded_down(exact_sum(a, b), u) ==> at_or_above(u, r),
            !is_pos_inf(x) ==> r == w,
            is_pos_inf(x) && exact_sum(a, b).is_real() ==> r.is_max(),
    {
        proof {
            lemma_exact_well_formed(a, b);
        }
        widen_down(
            Ghost(exact_sum(a, b)),
            a.is_infinite_number() || b.is_infinite_number(),
            x,
            w,
        )
    }

    /// Upper bound of `a - b` from its nearest value `x` and the widened `w`;
    /// it contains the tight bound.
    pub fn sub_up(a: Binary64, b: Binary64, x: Binary64, w: Binary64) -> (r: Binary64)
        requires
            is_nearby(exact_difference(a, b), x),
            is_widened_up(exact_difference(a, b), x, w),
        ensures
            is_upper_bound(exact_difference(a, b), r),
            forall|u: Binary64| rounded_up(exact_difference(a, b), u) ==> at_or_above(r, u),
            !is_neg_inf(x) ==> r == w,
            is_neg_inf(x) && exact_difference(a, b).is_real() ==> r.is_min(),
    {
        proof {
            lemma_exact_well_formed(a, b);
        }
        widen_up(
            Ghost(exact_difference(a, b)),
            a.is_infinite_number() || b.is_infinite_number(),
            x,
            w,
        )
    }

    /// Lower bound of `a - b` from its nearest value `x` and the widened `w`;
    /// it contains the tight bound.
    pub fn sub_down(a: Binary64, b: Binary64, x: Binary64, w: Binary64) -> (r: Binary64)
        requires
            is_nearby(exact_difference(a, b), x),
            is_widened_down(exact_difference(a, b), x, w),
        ensures
            is_lower_bound(exact_difference(a, b), r),
            forall|u: Binary64| rounded_down(exact_difference(a, b), u) ==> at_or_above(u, r),
            !is_pos_inf(x) ==> r == w,
            is_pos_inf(x) && exact_difference(a, b).is_real() ==> r.is_max(),
    {
        proof {
            lemma_exact_well_formed(a, b);
        }
        widen_down(
            Ghost(exact_difference(a, b)),
            a.is_infinite_number() || b.is_infinite_number(),
            x,
            w,
        )
    }

    /// Upper bound of `a * b` from its nearest value `x` and the widened `w`;
    /// it contains the tight bound.
    pub fn mul_up(a: Binary64, b: Binary64, x: Binary64, w: Binary64) -> (r: Binary64)
        requires
            is_nearby(exact_product(a, b), x),
            is_widened_up(exact_product(a, b), x, w),
        ensures
            is_upper_bound(exact_product(a, b), r),
            forall|u: Binary64| rounded_up(exact_product(a, b), u) ==> at_or_above(r, u),
            !is_neg_inf(x) ==> r == w,
            is_neg_inf(x) && exact_product(a, b).is_real() ==> r.is_min(),
    {
        proof {
            lemma_exact_well_formed(a, b);
        }
        widen_up(
            Ghost(exact_product(a, b)),
            a.is_infinite_number() || b.is_infinite_number(),
            x,
            w,
        )
    }

    /// Lower bound of `a * b` from its nearest value `x` and the widened `w`;
    /// it contains the tight bound.
    pub fn mul_down(a: Binary64, b: Binary64, x: Binary64, w: Binary64) -> (r: Binary64)
        requires
            is_nearby(exact_product(a, b), x),
            is_widened_down(exact_product(a, b), x, w),
        ensures
            is_lower_bound(exact_product(a, b), r),
            forall|u: Binary64| rounded_down(exact_product(a, b), u) ==> at_or_above(u, r),
            !is_pos_inf(x) ==> r == w,
            is_pos_inf(x) && exact_product(a, b).is_real() ==> r.is_max(),
    {
        proof {
            lemma_exact_well_formed(a, b);
        }
        widen_down(
            Ghost(exact_product(a, b)),
            a.is_infinite_number() || b.is_infinite_number(),
            x,
            w,
        )
    }

    /// Upper bound of `a / b` from its nearest value `x` and the widened `w`;
    /// it contains the tight bound.
    pub fn div_up(a: Binary64, b: Binary64, x: Binary64, w: Binary64) -> (r: Binary64)
        requires
            is_nearby(exact_quotient(a, b), x),
            is_widened_up(exact_quotient(a, b), x, w),
        ensures
            is_upper_bound(exact_quotient(a, b), r),
            forall|u: Binary64| rounded_up(exact_quotient(a, b), u) ==> at_or_above(r, u),
            !is_neg_inf(x) ==> r == w,
            is_neg_inf(x) && exact_quotient(a, b).is_real() ==> r.is_min(),
    {
        proof {
            lemma_exact_well_formed(a, b);
        }
        widen_up(
            Ghost(exact_quotient(a, b)),
            a.is_infinite_number() || b.is_zero_number(),
            x,
            w,
        )
    }

    /// Lower bound of `a / b` from its nearest value `x` and the widened `w`;
    /// it contains the tight bound.
    pub fn div_down(a: Binary64, b: Binary64, x: Binary64, w: Binary64) -> (r: Binary64)
        requires
            is_nearby(exact_quotient(a, b), x),
            is_widened_down(exact_quotient(a, b), x, w),
        ensures
            is_lower_bound(exact_quotient(a, b), r),
            forall|u: Binary64| rounded_down(exact_quotient(a, b), u) ==> at_or_above(u, r),
            !is_pos_inf(x) ==> r == w,
            is_pos_inf(x) && exact_quotient(a, b).is_real() ==> r.is_max(),
    {
        proof {
            lemma_exact_well_formed(a, b);
        }
        widen_down(
            Ghost(exact_quotient(a, b)),
            a.is_infinite_number() || b.is_zero_number(),
            x,
            w,
        )
    }

    /// Upper bound of the square root of `a` from its nearest value `x` and
    /// the widened `w`; it contains the tight bound.
    pub fn sqrt_up(a: Binary64, x: Binary64, w: Binary64) -> (r: Binary64)
        requires
            is_nearby(exact_sqrt(a), x),
            is_widened_up(exact_sqrt(a), x, w),
        ensures
            is_upper_bound(exact_sqrt(a), r),
            forall|u: Binary64| rounded_up(exact_sqrt(a), u) ==> at_or_above(r, u),
            !is_neg_inf(x) ==> r == w,
            is_neg_inf(x) && exact_sqrt(a).is_real() ==> r.is_min(),
    {
        proof {
            lemma_exact_well_formed(a, a);
        }
        widen_up(Ghost(exact_sqrt(a)), false, x, w)
    }

    /// Lower bound of the square root of `a` from its nearest value `x` and
    /// the widened `w`; it contains the tight bound.
    pub fn sqrt_down(a: Binary64, x: Binary64, w: Binary64) -> (r: Binary64)
        requires
            is_nearby(exact_sqrt(a), x),
            is_widened_down(exact_sqrt(a), x, w),
        ensures
            is_lower_bound(exact_sqrt(a), r),
            forall|u: Binary64| rounded_down(exact_sqrt(a), u) ==> at_or_above(u, r),
            !is_pos_inf(x) ==> r == w,
            is_pos_inf(x) && exact_sqrt(a).is_real() ==> r.is_max(),
    {
        proof {
            lemma_exact_well_formed(a, a);
        }
        widen_down(Ghost(exact_sqrt(a)), a.is_infinite_number(), x, w)
    }
}

} // verus!
