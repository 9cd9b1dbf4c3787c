use vstd::prelude::*;
use crate::binary64::{
    Binary64, INF_BITS, NEG_INF_BITS, max_value, lemma_value_bounded, lemma_value_order,
    lemma_value_sign,
};
use crate::exact::{
    Exact, is_adjacent, is_greatest_below, is_least_above, is_lower_bound, is_neg_inf, is_pos_inf,
    is_upper_bound,
};
use crate::ulp::{pred, pred_of, succ, succ_of, lemma_pred_is_next_below, lemma_succ_is_next_above};

verus! {

/// The output of an error-free transformation: `rounded` is the operation's
/// result rounded to nearest and, where it is finite, `rounded + error` is
/// the exact result.
#[derive(Clone, Copy, Debug, PartialEq, Eq, Structural)]
pub struct ErrorFreePair {
    pub rounded: Binary64,
    pub error: Binary64,
}

impl ErrorFreePair {
    pub fn new(rounded: Binary64, error: Binary64) -> (r: ErrorFreePair)
        ensures
            r.rounded == rounded,
            r.error == error,
    {
        ErrorFreePair { rounded, error }
    }

    /// `self` is an error-free transformation of the exact result `e`.
    pub open spec fn is_error_free(self, e: Exact) -> bool {
        &&& is_nearby(e, self.rounded)
        &&& (e.is_real() && self.rounded.is_finite()) ==> {
            &&& self.error.is_finite()
            &&& e.at_least(self.rounded.value() + self.error.value())
            &&& e.at_most(self.rounded.value() + self.error.value())
        }
    }
}

/// `x` is what rounding `e` to nearest may give: NaN for an undefined
/// result, the infinity of an infinite one, an infinity for a real result
/// beyond the finite range on that side, else a finite value adjacent to it.
pub open spec fn is_nearby(e: Exact, x: Binary64) -> bool {
    match e {
        Exact::Undefined => x.is_nan(),
        Exact::PosInf => is_pos_inf(x),
        Exact::NegInf => is_neg_inf(x),
        _ => {
            ||| (is_pos_inf(x) && !e.at_most(max_value()))
            ||| (is_neg_inf(x) && !e.at_least(-max_value()))
            ||| is_adjacent(x, e)
        },
    }
}

/// Whether a finite value is above or below a real result does not change
/// between values on the same side.
pub proof fn lemma_real_monotone(e: Exact, c: int, d: int)
    requires
        e.is_real(),
        c <= d,
    ensures
        e.at_most(c) ==> e.at_most(d),
        e.at_least(d) ==> e.at_least(c),
{
    match e {
        Exact::Ratio { num, den } => {
            assert(c * den <= d * den) by (nonlinear_arith)
                requires
                    c <= d,
                    den > 0,
            ;
        },
        Exact::Root { square } => {
            if c >= 0 {
                assert(c * c <= d * d) by (nonlinear_arith)
                    requires
                        0 <= c <= d,
                ;
            }
        },
        _ => {},
    }
}

/// A real result above the largest finite value is above every finite
/// value; one below the least is below every finite value.
pub proof fn lemma_beyond_range(e: Exact)
    requires
        e.is_real(),
    ensures
        !e.at_most(max_value()) ==> forall|c: Binary64|
            #![trigger c.value()]
            c.is_finite() ==> !e.at_most(c.value()),
        !e.at_least(-max_value()) ==> forall|c: Binary64|
            #![trigger c.value()]
            c.is_finite() ==> !e.at_least(c.value()),
{
    assert forall|c: Binary64| #![trigger c.value()] c.is_finite() implies (!e.at_most(
        max_value(),
    ) ==> !e.at_most(c.value())) && (!e.at_least(-max_value()) ==> !e.at_least(c.value())) by {
        lemma_value_bounded(c);
        lemma_real_monotone(e, c.value(), max_value());
        lemma_real_monotone(e, -max_value(), c.value());
    }
}

/// Rounding a real result upward from an adjacent value: keep it where it
/// is at or above the result, else take its successor.
pub proof fn lemma_step_up(e: Exact, x: Binary64)
    requires
        e.is_real(),
        is_adjacent(x, e),
    ensures
        e.at_most(x.value()) ==> is_least_above(e, x),
        !e.at_most(x.value()) ==> is_least_above(e, succ_of(x)),
{
    lemma_succ_is_next_above(x);
    assert forall|c: Binary64|
        #![trigger c.value()]
        c.is_finite() && e.at_most(c.value()) && !e.at_most(x.value()) implies x.value()
        < c.value() by {
        if c.value() <= x.value() {
            lemma_real_monotone(e, c.value(), x.value());
        }
    }
    if !e.at_most(x.value()) {
        let y = succ_of(x);
        if x.is_max() {
            assert forall|c: Binary64| #![trigger c.value()] c.is_finite() implies !e.at_most(
                c.value(),
            ) by {
                lemma_value_bounded(c);
                assert(c.value() <= x.value());
            }
        } else {
            assert(x.value() < y.value());
        }
    }
}

/// Rounding a real result downward from an adjacent value: keep it where
/// it is at or below the result, else take its predecessor.
pub proof fn lemma_step_down(e: Exact, x: Binary64)
    requires
        e.is_real(),
        is_adjacent(x, e),
    ensures
        e.at_least(x.value()) ==> is_greatest_below(e, x),
        !e.at_least(x.value()) ==> is_greatest_below(e, pred_of(x)),
{
    lemma_pred_is_next_below(x);
    assert forall|c: Binary64|
        #![trigger c.value()]
        c.is_finite() && e.at_least(c.value()) && !e.at_least(x.value()) implies c.value()
        < x.value() by {
        if x.value() <= c.value() {
            lemma_real_monotone(e, x.value(), c.value());
        }
    }
    if !e.at_least(x.value()) {
        let y = pred_of(x);
        if x.is_min() {
            assert forall|c: Binary64| #![trigger c.value()] c.is_finite() implies !e.at_least(
                c.value(),
            ) by {
                lemma_value_bounded(c);
                assert(x.value() <= c.value());
            }
        } else {
            assert(y.value() < x.value());
        }
    }
}

/// The sign of the error term tells on which side of the rounded value an
/// exact ratio lies.
pub proof fn lemma_error_sign(e: Exact, x: Binary64, y: Binary64)
    requires
        e is Ratio,
        e.is_real(),
        x.is_finite(),
        y.is_finite(),
        e.at_least(x.value() + y.value()),
        e.at_most(x.value() + y.value()),
    ensures
        y.value() > 0 <==> !e.at_most(x.value()),
        y.value() < 0 <==> !e.at_least(x.value()),
{
    let num = e->Ratio_num;
    let den = e->Ratio_den;
    let xv = x.value();
    let yv = y.value();
    assert((xv + yv) * den == num);
    assert(yv > 0 <==> xv * den < num) by (nonlinear_arith)
        requires
            (xv + yv) * den == num,
            den > 0,
    ;
    assert(yv < 0 <==> xv * den > num) by (nonlinear_arith)
        requires
            (xv + yv) * den == num,
            den > 0,
    ;
}


/// Comparing a finite `t` with the finite rounded part of an error-free pair
/// for a real ratio `e`, and on a tie with the sign of the error part, tells
/// on which side of `e` the value `t` lies.
pub proof fn lemma_pair_compare(e: Exact, t: Binary64, s: ErrorFreePair)
    requires
        e is Ratio,
        e.is_real(),
        s.is_error_free(e),
        s.rounded.is_finite(),
        t.is_finite(),
    ensures
        (t.rank() < s.rounded.rank() || (t.rank() == s.rounded.rank() && s.error.rank() > 0))
            <==> !e.at_most(t.value()),
        (t.rank() > s.rounded.rank() || (t.rank() == s.rounded.rank() && s.error.rank() < 0))
            <==> !e.at_least(t.value()),
{
    let x = s.rounded;
    lemma_value_order(t, x);
    lemma_value_sign(s.error);
    lemma_error_sign(e, x, s.error);
    if t.value() < x.value() {
        lemma_real_monotone(e, t.value(), x.value());
    } else if x.value() < t.value() {
        lemma_real_monotone(e, x.value(), t.value());
    }
}

/// The nearest result `x` of an operation whose exact result is `e`, moved
/// outward: the successor of a finite `x`; for an infinite `x`, that
/// infinity where `e` is infinite, and the least finite value where
/// negative infinity only came of overflow.
///
/// `operand_infinite` tells, where `x` is negative infinity, whether `e` is.
pub fn succ_outward(e: Ghost<Exact>, operand_infinite: bool, x: Binary64) -> (r: Binary64)
    requires
        e@.is_well_formed(),
        is_nearby(e@, x),
        is_neg_inf(x) ==> (operand_infinite <==> e@ is NegInf),
    ensures
        is_upper_bound(e@, r),
        x.is_finite() ==> r == succ_of(x),
        is_pos_inf(x) ==> is_pos_inf(r),
        is_neg_inf(x) && e@.is_real() ==> r.is_min(),
        x.is_nan() ==> r.is_nan(),
{
    proof {
        if e@.is_real() && x.is_finite() {
            lemma_step_up(e@, x);
            lemma_succ_is_next_above(x);
            if !x.is_max() {
                lemma_real_monotone(e@, x.value(), succ_of(x).value());
            }
        }
    }
    if x.bits == INF_BITS {
        x
    } else if x.bits == NEG_INF_BITS {
        if operand_infinite {
            x
        } else {
            Binary64::min_value()
        }
    } else {
        succ(x)
    }
}

/// The mirror of `succ_outward`: the predecessor of a finite `x`, with
/// positive infinity from overflow saturated to the largest finite value.
pub fn pred_outward(e: Ghost<Exact>, operand_infinite: bool, x: Binary64) -> (r: Binary64)
    requires
        e@.is_well_formed(),
        is_nearby(e@, x),
        is_pos_inf(x) ==> (operand_infinite <==> e@ is PosInf),
    ensures
        is_lower_bound(e@, r),
        x.is_finite() ==> r == pred_of(x),
        is_neg_inf(x) ==> is_neg_inf(r),
        is_pos_inf(x) && e@.is_real() ==> r.is_max(),
        x.is_nan() ==> r.is_nan(),
{
    proof {
        if e@.is_real() && x.is_finite() {
            lemma_step_down(e@, x);
            lemma_pred_is_next_below(x);
            if !x.is_min() {
                lemma_real_monotone(e@, pred_of(x).value(), x.value());
            }
        }
    }
    if x.bits == NEG_INF_BITS {
        x
    } else if x.bits == INF_BITS {
        if operand_infinite {
            x
        } else {
            Binary64::max_value()
        }
    } else {
        pred(x)
    }
}

} // verus!
