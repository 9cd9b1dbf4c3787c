//! Directed rounding of IEEE 754 binary64 arithmetic on a host that only
//! rounds to nearest.
//!
//! Numbers are held as bit patterns ([`Binary64`]); the exact value of each
//! finite pattern is an integer multiple of 2^-1074. The host computes
//! results rounded to nearest and their error-free transformations; the
//! strategies here decide, from those, the directed result, and each
//! decision is proved against the exact result of the operation.
use vstd::prelude::*;

pub mod roundops;
pub mod binary64;
pub mod binary32;
pub mod ulp;
pub mod exact;
pub mod transform;
pub mod emulation;
pub mod emulation_unchecked;
pub mod succpred;
pub mod roughwrap;

pub use roundops::{
    DefaultRounding, Direction, Downward, NativeRoundingMode, RoundAdd, RoundDiv, RoundMul,
    RoundOps, RoundSqrt, RoundSub, RoundedNum, RoundedSession, RoundingMethod, Switchable, Upward,
};
pub use binary64::Binary64;
pub use ulp::{pred, succ};
pub use transform::ErrorFreePair;
pub use emulation::EmulationRegular;
pub use succpred::SuccPred;
pub use roughwrap::RoughWrapping;

verus! {

} // verus!
