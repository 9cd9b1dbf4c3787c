use vstd::prelude::*;
use crate::binary64::Binary64;
use crate::exact::{
    Exact, exact_difference, exact_product, exact_quotient, exact_sqrt, exact_sum, is_adjacent,
    is_lower_bound, is_neg_inf, is_pos_inf, is_upper_bound, same_number, lemma_exact_well_formed,
};
use crate::transform::{
    is_nearby, pred_outward, succ_outward, lemma_real_monotone, lemma_step_down, lemma_step_up,
};
use crate::ulp::{
    pred, pred_of, succ, succ_of, lemma_pred_is_next_below, lemma_succ_is_next_above,
    lemma_succ_pred_inverse,
};

verus! {

/// The simple strategy: the nearest result, always moved one step outward.
///
/// Each operation takes the host's result `x` rounded to nearest. Where `x`
/// is finite the upward result is its successor and the downward result its
/// predecessor; an infinity that only came of overflow is saturated to the
/// finite extreme on the side that stays a bound.
pub struct SuccPred;

impl SuccPred {
    /// Upper bound of `a + b` from its nearest value `x`.
    pub fn add_up(a: Binary64, b: Binary64, x: Binary64) -> (r: Binary64)
        requires
            is_nearby(exact_sum(a, b), x),
        ensures
            is_upper_bound(exact_sum(a, b), r),
            x.is_finite() ==> r == succ_of(x),
            is_neg_inf(x) && exact_sum(a, b).is_real() ==> r.is_min(),
    {
        proof {
            lemma_exact_well_formed(a, b);
        }
        succ_outward(Ghost(exact_sum(a, b)), a.is_infinite_number() || b.is_infinite_number(), x)
    }

    /// Lower bound of `a + b` from its nearest value `x`.
    pub fn add_down(a: Binary64, b: Binary64, x: Binary64) -> (r: Binary64)
        requires
            is_nearby(exact_sum(a, b), x),
        ensures
            is_lower_bound(exact_sum(a, b), r),
            x.is_finite() ==> r == pred_of(x),
            is_pos_inf(x) && exact_sum(a, b).is_real() ==> r.is_max(),
    {
        proof {
            lemma_exact_well_formed(a, b);
        }
        pred_outward(Ghost(exact_sum(a, b)), a.is_infinite_number() || b.is_infinite_number(), x)
    }

    /// Upper bound of `a - b` from its nearest value `x`.
    pub fn sub_up(a: Binary64, b: Binary64, x: Binary64) -> (r: Binary64)
        requires
            is_nearby(exact_difference(a, b), x),
        ensures
            is_upper_bound(exact_difference(a, b), r),
            x.is_finite() ==> r == succ_of(x),
            is_neg_inf(x) && exact_difference(a, b).is_real() ==> r.is_min(),
    {
        proof {
            lemma_exact_well_formed(a, b);
        }
        succ_outward(
            Ghost(exact_difference(a, b)),
            a.is_infinite_number() || b.is_infinite_number(),
            x,
        )
    }

    /// Lower bound of `a - b` from its nearest value `x`.
    pub fn sub_down(a: Binary64, b: Binary64, x: Binary64) -> (r: Binary64)
        requires
            is_nearby(exact_difference(a, b), x),
        ensures
            is_lower_bound(exact_difference(a, b), r),
            x.is_finite() ==> r == pred_of(x),
            is_pos_inf(x) && exact_difference(a, b).is_real() ==> r.is_max(),
    {
        proof {
            lemma_exact_well_formed(a, b);
        }
        pred_outward(
            Ghost(exact_difference(a, b)),
            a.is_infinite_number() || b.is_infinite_number(),
            x,
        )
    }

    /// Upper bound of `a * b` from its nearest value `x`.
    pub fn mul_up(a: Binary64, b: Binary64, x: Binary64) -> (r: Binary64)
        requires
            is_nearby(exact_product(a, b), x),
        ensures
            is_upper_bound(exact_product(a, b), r),
            x.is_finite() ==> r == succ_of(x),
            is_neg_inf(x) && exact_product(a, b).is_real() ==> r.is_min(),
    {
        proof {
            lemma_exact_well_formed(a, b);
        }
        succ_outward(
            Ghost(exact_product(a, b)),
            a.is_infinite_number() || b.is_infinite_number(),
            x,
        )
    }

    /// Lower bound of `a * b` from its nearest value `x`.
    pub fn mul_down(a: Binary64, b: Binary64, x: Binary64) -> (r: Binary64)
        requires
            is_nearby(exact_product(a, b), x),
        ensures
            is_lower_bound(exact_product(a, b), r),
            x.is_finite() ==> r == pred_of(x),
            is_pos_inf(x) && exact_product(a, b).is_real() ==> r.is_max(),
    {
        proof {
            lemma_exact_well_formed(a, b);
        }
        pred_outward(
            Ghost(exact_product(a, b)),
            a.is_infinite_number() || b.is_infinite_number(),
            x,
        )
    }

    /// Upper bound of `a / b` from its nearest value `x`.
    pub fn div_up(a: Binary64, b: Binary64, x: Binary64) -> (r: Binary64)
        requires
            is_nearby(exact_quotient(a, b), x),
        ensures
            is_upper_bound(exact_quotient(a, b), r),
            x.is_finite() ==> r == succ_of(x),
            is_neg_inf(x) && exact_quotient(a, b).is_real() ==> r.is_min(),
    {
        proof {
            lemma_exact_well_formed(a, b);
        }
        succ_outward(
            Ghost(exact_quotient(a, b)),
            a.is_infinite_number() || b.is_zero_number(),
            x,
        )
    }

    /// Lower bound of `a / b` from its nearest value `x`.
    pub fn div_down(a: Binary64, b: Binary64, x: Binary64) -> (r: Binary64)
        requires
            is_nearby(exact_quotient(a, b), x),
        ensures
            is_lower_bound(exact_quotient(a, b), r),
            x.is_finite() ==> r == pred_of(x),
            is_pos_inf(x) && exact_quotient(a, b).is_real() ==> r.is_max(),
    {
        proof {
            lemma_exact_well_formed(a, b);
        }
        pred_outward(
            Ghost(exact_quotient(a, b)),
            a.is_infinite_number() || b.is_zero_number(),
            x,
        )
    }

    /// Upper bound of the square root of `a` from its nearest value `x`.
    pub fn sqrt_up(a: Binary64, x: Binary64) -> (r: Binary64)
        requires
            is_nearby(exact_sqrt(a), x),
        ensures
            is_upper_bound(exact_sqrt(a), r),
            x.is_finite() ==> r == succ_of(x),
            is_neg_inf(x) && exact_sqrt(a).is_real() ==> r.is_min(),
    {
        proof {
            lemma_exact_well_formed(a, a);
        }
        succ_outward(Ghost(exact_sqrt(a)), false, x)
    }

    /// Lower bound of the square root of `a` from its nearest value `x`.
    pub fn sqrt_down(a: Binary64, x: Binary64) -> (r: Binary64)
        requires
            is_nearby(exact_sqrt(a), x),
        ensures
            is_lower_bound(exact_sqrt(a), r),
            x.is_finite() ==> r == pred_of(x),
            is_pos_inf(x) && exact_sqrt(a).is_real() ==> r.is_max(),
    {
        proof {
            lemma_exact_well_formed(a, a);
        }
        pred_outward(Ghost(exact_sqrt(a)), a.is_infinite_number(), x)
    }
}

/// The simple strategy without special values: the caller guarantees that
/// the nearest result `x` is finite and adjacent to a real exact result.
pub struct SuccPredUnchecked;

/// The neighbours of a value adjacent to a real result bound it.
proof fn lemma_neighbours_bound(e: Exact, x: Binary64)
    requires
        e.is_real(),
        is_adjacent(x, e),
    ensures
        is_upper_bound(e, succ_of(x)),
        is_lower_bound(e, pred_of(x)),
{
    lemma_step_up(e, x);
    lemma_step_down(e, x);
    lemma_succ_is_next_above(x);
    lemma_pred_is_next_below(x);
    if !x.is_max() {
        lemma_real_monotone(e, x.value(), succ_of(x).value());
    }
    if !x.is_min() {
        lemma_real_monotone(e, pred_of(x).value(), x.value());
    }
}

impl SuccPredUnchecked {
    /// Upper bound of `a + b` from its nearest value `x`.
    pub fn add_up(a: Binary64, b: Binary64, x: Binary64) -> (r: Binary64)
        requires
            exact_sum(a, b).is_real(),
            is_adjacent(x, exact_sum(a, b)),
        ensures
            is_upper_bound(exact_sum(a, b), r),
            r == succ_of(x),
    {
        proof {
            lemma_neighbours_bound(exact_sum(a, b), x);
        }
        succ(x)
    }

    /// Lower bound of `a + b` from its nearest value `x`.
    pub fn add_down(a: Binary64, b: Binary64, x: Binary64) -> (r: Binary64)
        requires
            exact_sum(a, b).is_real(),
            is_adjacent(x, exact_sum(a, b)),
        ensures
            is_lower_bound(exact_sum(a, b), r),
            r == pred_of(x),
    {
        proof {
            lemma_neighbours_bound(exact_sum(a, b), x);
        }
        pred(x)
    }

    /// Upper bound of `a - b` from its nearest value `x`.
    pub fn sub_up(a: Binary64, b: Binary64, x: Binary64) -> (r: Binary64)
        requires
            exact_difference(a, b).is_real(),
            is_adjacent(x, exact_difference(a, b)),
        ensures
            is_upper_bound(exact_difference(a, b), r),
            r == succ_of(x),
    {
        proof {
            lemma_neighbours_bound(exact_difference(a, b), x);
        }
        succ(x)
    }

    /// Lower bound of `a - b` from its nearest value `x`.
    pub fn sub_down(a: Binary64, b: Binary64, x: Binary64) -> (r: Binary64)
        requires
            exact_difference(a, b).is_real(),
            is_adjacent(x, exact_difference(a, b)),
        ensures
            is_lower_bound(exact_difference(a, b), r),
            r == pred_of(x),
    {
        proof {
            lemma_neighbours_bound(exact_difference(a, b), x);
        }
        pred(x)
    }

    /// Upper bound of `a * b` from its nearest value `x`.
    pub fn mul_up(a: Binary64, b: Binary64, x: Binary64) -> (r: Binary64)
        requires
            exact_product(a, b).is_real(),
            is_adjacent(x, exact_product(a, b)),
        ensures
            is_upper_bound(exact_product(a, b), r),
            r == succ_of(x),
    {
        proof {
            lemma_neighbours_bound(exact_product(a, b), x);
        }
        succ(x)
    }

    /// Lower bound of `a * b` from its nearest value `x`.
    pub fn mul_down(a: Binary64, b: Binary64, x: Binary64) -> (r: Binary64)
        requires
            exact_product(a, b).is_real(),
            is_adjacent(x, exact_product(a, b)),
        ensures
            is_lower_bound(exact_product(a, b), r),
            r == pred_of(x),
    {
        proof {
            lemma_neighbours_bound(exact_product(a, b), x);
        }
        pred(x)
    }

    /// Upper bound of `a / b` from its nearest value `x`.
    pub fn div_up(a: Binary64, b: Binary64, x: Binary64) -> (r: Binary64)
        requires
            exact_quotient(a, b).is_real(),
            is_adjacent(x, exact_quotient(a, b)),
        ensures
            is_upper_bound(exact_quotient(a, b), r),
            r == succ_of(x),
    {
        proof {
            lemma_neighbours_bound(exact_quotient(a, b), x);
        }
        succ(x)
    }

    /// Lower bound of `a / b` from its nearest value `x`.
    pub fn div_down(a: Binary64, b: Binary64, x: Binary64) -> (r: Binary64)
        requires
            exact_quotient(a, b).is_real(),
            is_adjacent(x, exact_quotient(a, b)),
        ensures
            is_lower_bound(exact_quotient(a, b), r),
            r == pred_of(x),
    {
        proof {
            lemma_neighbours_bound(exact_quotient(a, b), x);
        }
        pred(x)
    }

    /// Upper bound of the square root of `a` from its nearest value `x`.
    pub fn sqrt_up(a: Binary64, x: Binary64) -> (r: Binary64)
        requires
            exact_sqrt(a).is_real(),
            is_adjacent(x, exact_sqrt(a)),
        ensures
            is_upper_bound(exact_sqrt(a), r),
            r == succ_of(x),
    {
        proof {
            lemma_neighbours_bound(exact_sqrt(a), x);
        }
        succ(x)
    }

    /// Lower bound of the square root of `a` from its nearest value `x`.
    pub fn sqrt_down(a: Binary64, x: Binary64) -> (r: Binary64)
        requires
            exact_sqrt(a).is_real(),
            is_adjacent(x, exact_sqrt(a)),
        ensures
            is_lower_bound(exact_sqrt(a), r),
            r == pred_of(x),
    {
        proof {
            lemma_neighbours_bound(exact_sqrt(a), x);
        }
        pred(x)
    }
}

/// The bracket of this strategy is two steps wide around a finite nearest
/// value `x` away from the extremes: one step down from its upper end is
/// one step up from its lower end.
pub proof fn lemma_bracket_two_steps(x: Binary64)
    requires
        x.is_finite(),
        !x.is_max(),
        !x.is_min(),
    ensures
        same_number(pred_of(succ_of(x)), succ_of(pred_of(x))),
{
    lemma_succ_pred_inverse(x);
}

} // verus!
