use vstd::prelude::*;
use crate::binary64::{Binary64, lemma_unscaled, lemma_value_sign};
use crate::emulation::{
    scaled_divisor_product, scaled_square, lemma_quotient_side, lemma_root_not_negative,
    lemma_root_side,
};
use crate::exact::{
    exact_difference, exact_product, exact_quotient, exact_sqrt, exact_sum, is_adjacent, is_zero,
    lemma_difference_is_sum_of_negation, lemma_exact_well_formed, rounded_down, rounded_up,
};
use crate::transform::{
    ErrorFreePair, lemma_error_sign, lemma_pair_compare, lemma_step_down, lemma_step_up,
};
use crate::ulp::{pred, succ};

verus! {

/// The tight strategy without special values: the caller guarantees finite
/// operands, a finite rounded result and an exact error term.
pub struct EmulationRegularUnchecked;

/// `s` is an exact, finite transformation of the real result of an
/// operation, as the caller guarantees to this strategy.
pub open spec fn is_exact_finite(e: crate::exact::Exact, s: ErrorFreePair) -> bool {
    &&& e.is_real()
    &&& s.rounded.is_finite()
    &&& s.is_error_free(e)
}

impl EmulationRegularUnchecked {
    /// `a + b` rounded upward, from the TwoSum `s` of `a` and `b`.
    pub fn add_up(a: Binary64, b: Binary64, s: ErrorFreePair) -> (r: Binary64)
        requires
            is_exact_finite(exact_sum(a, b), s),
        ensures
            rounded_up(exact_sum(a, b), r),
    {
        proof {
            lemma_step_up(exact_sum(a, b), s.rounded);
            lemma_error_sign(exact_sum(a, b), s.rounded, s.error);
            lemma_value_sign(s.error);
        }
        if s.error.is_positive() {
            succ(s.rounded)
        } else {
            s.rounded
        }
    }

    /// `a + b` rounded downward, from the TwoSum `s` of `a` and `b`.
    pub fn add_down(a: Binary64, b: Binary64, s: ErrorFreePair) -> (r: Binary64)
        requires
            is_exact_finite(exact_sum(a, b), s),
        ensures
            rounded_down(exact_sum(a, b), r),
    {
        proof {
            lemma_step_down(exact_sum(a, b), s.rounded);
            lemma_error_sign(exact_sum(a, b), s.rounded, s.error);
            lemma_value_sign(s.error);
        }
        if s.error.is_negative_number() {
            pred(s.rounded)
        } else {
            s.rounded
        }
    }

    /// `a - b` rounded upward, from the TwoSum `s` of `a` and `-b`.
    pub fn sub_up(a: Binary64, b: Binary64, s: ErrorFreePair) -> (r: Binary64)
        requires
            is_exact_finite(exact_difference(a, b), s),
        ensures
            rounded_up(exact_difference(a, b), r),
    {
        proof {
            lemma_difference_is_sum_of_negation(a, b);
        }
        Self::add_up(a, b.neg(), s)
    }

    /// `a - b` rounded downward, from the TwoSum `s` of `a` and `-b`.
    pub fn sub_down(a: Binary64, b: Binary64, s: ErrorFreePair) -> (r: Binary64)
        requires
            is_exact_finite(exact_difference(a, b), s),
        ensures
            rounded_down(exact_difference(a, b), r),
    {
        proof {
            lemma_difference_is_sum_of_negation(a, b);
        }
        Self::add_down(a, b.neg(), s)
    }

    /// `a * b` rounded upward, from the TwoProduct `p` of `a` and `b`.
    pub fn mul_up(a: Binary64, b: Binary64, p: ErrorFreePair) -> (r: Binary64)
        requires
            is_exact_finite(exact_product(a, b), p),
        ensures
            rounded_up(exact_product(a, b), r),
    {
        proof {
            lemma_step_up(exact_product(a, b), p.rounded);
            lemma_error_sign(exact_product(a, b), p.rounded, p.error);
            lemma_value_sign(p.error);
        }
        if p.error.is_positive() {
            succ(p.rounded)
        } else {
            p.rounded
        }
    }

    /// `a * b` rounded downward, from the TwoProduct `p` of `a` and `b`.
    pub fn mul_down(a: Binary64, b: Binary64, p: ErrorFreePair) -> (r: Binary64)
        requires
            is_exact_finite(exact_product(a, b), p),
        ensures
            rounded_down(exact_product(a, b), r),
    {
        proof {
            lemma_step_down(exact_product(a, b), p.rounded);
            lemma_error_sign(exact_product(a, b), p.rounded, p.error);
            lemma_value_sign(p.error);
        }
        if p.error.is_negative_number() {
            pred(p.rounded)
        } else {
            p.rounded
        }
    }

    /// `a / b` rounded upward, from the quotient `d` of `a` and `b` rounded
    /// to nearest and the TwoProduct `p` of `d` and `b`.
    pub fn div_up(a: Binary64, b: Binary64, d: Binary64, p: ErrorFreePair) -> (r: Binary64)
        requires
            a.is_finite(),
            b.is_finite(),
            !is_zero(b),
            is_adjacent(d, exact_quotient(a, b)),
            is_exact_finite(scaled_divisor_product(d, b, 0), p),
        ensures
            rounded_up(exact_quotient(a, b), r),
    {
        proof {
            lemma_exact_well_formed(a, b);
            lemma_step_up(exact_quotient(a, b), d);
            lemma_value_sign(b);
            lemma_unscaled(a.value());
            lemma_quotient_side(a, b, d, 0, a);
            lemma_pair_compare(scaled_divisor_product(d, b, 0), a, p);
        }
        let step = if b.is_positive() {
            p.rounded.lt(a) || (a.eq_number(p.rounded) && p.error.is_negative_number())
        } else {
            a.lt(p.rounded) || (a.eq_number(p.rounded) && p.error.is_positive())
        };
        if step {
            succ(d)
        } else {
            d
        }
    }

    /// `a / b` rounded downward, from the quotient `d` of `a` and `b`
    /// rounded to nearest and the TwoProduct `p` of `d` and `b`.
    pub fn div_down(a: Binary64, b: Binary64, d: Binary64, p: ErrorFreePair) -> (r: Binary64)
        requires
            a.is_finite(),
            b.is_finite(),
            !is_zero(b),
            is_adjacent(d, exact_quotient(a, b)),
            is_exact_finite(scaled_divisor_product(d, b, 0), p),
        ensures
            rounded_down(exact_quotient(a, b), r),
    {
        proof {
            lemma_exact_well_formed(a, b);
            lemma_step_down(exact_quotient(a, b), d);
            lemma_value_sign(b);
            lemma_unscaled(a.value());
            lemma_quotient_side(a, b, d, 0, a);
            lemma_pair_compare(scaled_divisor_product(d, b, 0), a, p);
        }
        let step = if b.is_positive() {
            a.lt(p.rounded) || (a.eq_number(p.rounded) && p.error.is_positive())
        } else {
            p.rounded.lt(a) || (a.eq_number(p.rounded) && p.error.is_negative_number())
        };
        if step {
            pred(d)
        } else {
            d
        }
    }

    /// The square root of `a` rounded upward, from the root `r` of `a`
    /// rounded to nearest and the TwoProduct `p` of `r` with itself.
    pub fn sqrt_up(a: Binary64, r: Binary64, p: ErrorFreePair) -> (res: Binary64)
        requires
            exact_sqrt(a).is_real(),
            is_adjacent(r, exact_sqrt(a)),
            is_exact_finite(scaled_square(r, 0), p),
        ensures
            rounded_up(exact_sqrt(a), res),
    {
        proof {
            lemma_step_up(exact_sqrt(a), r);
            lemma_root_not_negative(a, r);
            lemma_unscaled(a.value());
            lemma_root_side(a, r, 0, a);
            lemma_pair_compare(scaled_square(r, 0), a, p);
        }
        if p.rounded.lt(a) || (a.eq_number(p.rounded) && p.error.is_negative_number()) {
            succ(r)
        } else {
            r
        }
    }

    /// The square root of `a` rounded downward, from the root `r` of `a`
    /// rounded to nearest and the TwoProduct `p` of `r` with itself.
    pub fn sqrt_down(a: Binary64, r: Binary64, p: ErrorFreePair) -> (res: Binary64)
        requires
            exact_sqrt(a).is_real(),
            is_adjacent(r, exact_sqrt(a)),
            is_exact_finite(scaled_square(r, 0), p),
        ensures
            rounded_down(exact_sqrt(a), res),
    {
        proof {
            lemma_step_down(exact_sqrt(a), r);
            lemma_root_not_negative(a, r);
            lemma_unscaled(a.value());
            lemma_root_side(a, r, 0, a);
            lemma_pair_compare(scaled_square(r, 0), a, p);
        }
        if a.lt(p.rounded) || (a.eq_number(p.rounded) && p.error.is_positive()) {
            pred(r)
        } else {
            r
        }
    }
}

} // verus!
