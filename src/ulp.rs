use vstd::prelude::*;
use crate::binary64::{
    Binary64, INF_BITS, NAN_BITS, NEG_INF_BITS, SIGN_BIT, lemma_value_bounded, lemma_value_order,
};

verus! {

/// The pattern of the least value strictly above `x`.
///
/// Infinity stays infinite and NaN stays NaN; negative infinity has no
/// successor that the stepping formula reaches, and gives NaN.
pub open spec fn succ_of(x: Binary64) -> Binary64 {
    if x.is_nan() || x.bits == INF_BITS {
        x
    } else if x.bits == NEG_INF_BITS {
        Binary64 { bits: NAN_BITS }
    } else if x.bits == SIGN_BIT {
        Binary64 { bits: 1 }
    } else if x.bits < SIGN_BIT {
        Binary64 { bits: (x.bits + 1) as u64 }
    } else {
        Binary64 { bits: (x.bits - 1) as u64 }
    }
}

/// The pattern of the greatest value strictly below `x`; the mirror of `succ_of`.
pub open spec fn pred_of(x: Binary64) -> Binary64 {
    if x.is_nan() || x.bits == NEG_INF_BITS {
        x
    } else if x.bits == INF_BITS {
        Binary64 { bits: NAN_BITS }
    } else if x.bits == 0 {
        Binary64 { bits: (SIGN_BIT + 1) as u64 }
    } else if x.bits < SIGN_BIT {
        Binary64 { bits: (x.bits - 1) as u64 }
    } else {
        Binary64 { bits: (x.bits + 1) as u64 }
    }
}

/// `y` is the least finite value strictly above `x`, or positive infinity
/// where `x` is the largest finite value.
pub open spec fn is_next_above(x: Binary64, y: Binary64) -> bool {
    if x.is_max() {
        y.bits == INF_BITS
    } else {
        &&& y.is_finite()
        &&& x.value() < y.value()
        &&& forall|c: Binary64|
            #![trigger c.value()]
            c.is_finite() && x.value() < c.value() ==> y.value() <= c.value()
    }
}

/// `y` is the greatest finite value strictly below `x`, or negative infinity
/// where `x` is the least finite value.
pub open spec fn is_next_below(x: Binary64, y: Binary64) -> bool {
    if x.is_min() {
        y.bits == NEG_INF_BITS
    } else {
        &&& y.is_finite()
        &&& y.value() < x.value()
        &&& forall|c: Binary64|
            #![trigger c.value()]
            c.is_finite() && c.value() < x.value() ==> c.value() <= y.value()
    }
}

/// On a finite pattern the successor moves one rank up.
pub proof fn lemma_succ_rank(x: Binary64)
    requires
        x.is_finite(),
    ensures
        x.is_max() ==> succ_of(x).bits == INF_BITS,
        !x.is_max() ==> succ_of(x).is_finite() && succ_of(x).rank() == x.rank() + 1,
{
    lemma_value_bounded(x);
}

/// On a finite pattern the predecessor moves one rank down.
pub proof fn lemma_pred_rank(x: Binary64)
    requires
        x.is_finite(),
    ensures
        x.is_min() ==> pred_of(x).bits == NEG_INF_BITS,
        !x.is_min() ==> pred_of(x).is_finite() && pred_of(x).rank() == x.rank() - 1,
{
    lemma_value_bounded(x);
}

/// The successor of a finite value is the adjacent value above it.
pub proof fn lemma_succ_is_next_above(x: Binary64)
    requires
        x.is_finite(),
    ensures
        is_next_above(x, succ_of(x)),
{
    lemma_succ_rank(x);
    if !x.is_max() {
        let y = succ_of(x);
        lemma_value_order(x, y);
        assert forall|c: Binary64|
            #![trigger c.value()]
            c.is_finite() && x.value() < c.value() implies y.value() <= c.value() by {
            lemma_value_order(x, c);
            lemma_value_order(y, c);
        }
    }
}

/// The predecessor of a finite value is the adjacent value below it.
pub proof fn lemma_pred_is_next_below(x: Binary64)
    requires
        x.is_finite(),
    ensures
        is_next_below(x, pred_of(x)),
{
    lemma_pred_rank(x);
    if !x.is_min() {
        let y = pred_of(x);
        lemma_value_order(x, y);
        assert forall|c: Binary64|
            #![trigger c.value()]
            c.is_finite() && c.value() < x.value() implies c.value() <= y.value() by {
            lemma_value_order(x, c);
            lemma_value_order(y, c);
        }
    }
}

/// The least value strictly above `x`.
///
/// For finite `x` below the largest value this is the adjacent finite value;
/// the largest value steps to infinity, infinity stays, NaN stays NaN.
pub fn succ(x: Binary64) -> (r: Binary64)
    ensures
        r == succ_of(x),
        x.is_finite() ==> is_next_above(x, r),
        x.is_nan() ==> r.is_nan(),
        x.bits == INF_BITS ==> r.bits == INF_BITS,
{
    proof {
        if x.is_finite() {
            lemma_succ_is_next_above(x);
        }
    }
    let m = x.magnitude_bits();
    if m > INF_BITS || x.bits == INF_BITS {
        x
    } else if x.bits == NEG_INF_BITS {
        Binary64 { bits: NAN_BITS }
    } else if x.bits == SIGN_BIT {
        Binary64 { bits: 1 }
    } else if x.bits < SIGN_BIT {
        Binary64 { bits: x.bits + 1 }
    } else {
        Binary64 { bits: x.bits - 1 }
    }
}

/// The greatest value strictly below `x`; the mirror of `succ`.
pub fn pred(x: Binary64) -> (r: Binary64)
    ensures
        r == pred_of(x),
        x.is_finite() ==> is_next_below(x, r),
        x.is_nan() ==> r.is_nan(),
        x.bits == NEG_INF_BITS ==> r.bits == NEG_INF_BITS,
{
    proof {
        if x.is_finite() {
            lemma_pred_is_next_below(x);
        }
    }
    let m = x.magnitude_bits();
    if m > INF_BITS || x.bits == NEG_INF_BITS {
        x
    } else if x.bits == INF_BITS {
        Binary64 { bits: NAN_BITS }
    } else if x.bits == 0 {
        Binary64 { bits: SIGN_BIT + 1 }
    } else if x.bits < SIGN_BIT {
        Binary64 { bits: x.bits - 1 }
    } else {
        Binary64 { bits: x.bits + 1 }
    }
}

/// Stepping up then down returns to the same value: for finite `x` other
/// than the largest value, `pred(succ(x))` is finite and equal to `x`; for
/// finite `x` other than the least value, so is `succ(pred(x))`.
pub proof fn lemma_succ_pred_inverse(x: Binary64)
    requires
        x.is_finite(),
    ensures
        !x.is_max() ==> pred_of(succ_of(x)).is_finite() && pred_of(succ_of(x)).value() == x.value(),
        !x.is_min() ==> succ_of(pred_of(x)).is_finite() && succ_of(pred_of(x)).value() == x.value(),
{
    lemma_value_bounded(x);
    if !x.is_max() {
        lemma_succ_rank(x);
        let y = succ_of(x);
        lemma_value_bounded(y);
        lemma_pred_rank(y);
        lemma_value_order(pred_of(y), x);
    }
    if !x.is_min() {
        lemma_pred_rank(x);
        let y = pred_of(x);
        lemma_value_bounded(y);
        lemma_succ_rank(y);
        lemma_value_order(succ_of(y), x);
    }
}

} // verus!
