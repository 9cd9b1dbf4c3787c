use roundops::emulation_unchecked::EmulationRegularUnchecked;
use roundops::succpred::SuccPredUnchecked;
use roundops::{Binary64, EmulationRegular, ErrorFreePair, RoughWrapping, SuccPred, pred, succ};

fn b(x: f64) -> Binary64 {
    Binary64::from_bits(x.to_bits())
}

fn f(x: Binary64) -> f64 {
    f64::from_bits(x.to_bits())
}

fn fsucc(x: f64) -> f64 {
    f(succ(b(x)))
}

fn fpred(x: f64) -> f64 {
    f(pred(b(x)))
}

fn pair(rounded: f64, error: f64) -> ErrorFreePair {
    ErrorFreePair::new(b(rounded), b(error))
}

/// TwoSum with the operands ordered by magnitude.
fn two_sum(a: f64, b: f64) -> ErrorFreePair {
    let x = a + b;
    let (big, small) = if a.abs() >= b.abs() { (a, b) } else { (b, a) };
    pair(x, small - (x - big))
}

/// TwoProduct through a fused multiply-add.
fn two_product(a: f64, b: f64) -> ErrorFreePair {
    let x = a * b;
    pair(x, a.mul_add(b, -x))
}

fn emu_add_up(a: f64, c: f64) -> f64 {
    f(EmulationRegular::add_up(b(a), b(c), two_sum(a, c)))
}

fn emu_add_down(a: f64, c: f64) -> f64 {
    f(EmulationRegular::add_down(b(a), b(c), two_sum(a, c)))
}

fn emu_sub_up(a: f64, c: f64) -> f64 {
    f(EmulationRegular::sub_up(b(a), b(c), two_sum(a, -c)))
}

fn emu_sub_down(a: f64, c: f64) -> f64 {
    f(EmulationRegular::sub_down(b(a), b(c), two_sum(a, -c)))
}

fn product_witness(a: f64, c: f64) -> (ErrorFreePair, ErrorFreePair, Binary64) {
    let k = 2f64.powi(575);
    let p = two_product(a, c);
    let scaled = two_product(a * k, c * k);
    let t = (f(p.rounded) * k) * k;
    (p, scaled, b(t))
}

fn emu_mul_up(a: f64, c: f64) -> f64 {
    let (p, s, t) = product_witness(a, c);
    f(EmulationRegular::mul_up(b(a), b(c), p, s, t))
}

fn emu_mul_down(a: f64, c: f64) -> f64 {
    let (p, s, t) = product_witness(a, c);
    f(EmulationRegular::mul_down(b(a), b(c), p, s, t))
}

fn quotient_witness(a: f64, c: f64) -> (Binary64, ErrorFreePair, ErrorFreePair, Binary64) {
    let k = 2f64.powi(105);
    let d = a / c;
    (b(d), two_product(d, c), two_product(d, c * k), b(a * k))
}

fn emu_div_up(a: f64, c: f64) -> f64 {
    let (d, p, sp, sa) = quotient_witness(a, c);
    f(EmulationRegular::div_up(b(a), b(c), d, p, sp, sa))
}

fn emu_div_down(a: f64, c: f64) -> f64 {
    let (d, p, sp, sa) = quotient_witness(a, c);
    f(EmulationRegular::div_down(b(a), b(c), d, p, sp, sa))
}

fn root_witness(a: f64) -> (Binary64, ErrorFreePair, ErrorFreePair, Binary64) {
    let r = a.sqrt();
    let k = 2f64.powi(53);
    (b(r), two_product(r, r), two_product(r * k, r * k), b(a * k * k))
}

fn emu_sqrt_up(a: f64) -> f64 {
    let (r, p, s, t) = root_witness(a);
    f(EmulationRegular::sqrt_up(b(a), r, p, s, t))
}

fn emu_sqrt_down(a: f64) -> f64 {
    let (r, p, s, t) = root_witness(a);
    f(EmulationRegular::sqrt_down(b(a), r, p, s, t))
}

fn rough_succ(x: f64) -> f64 {
    let phi = f64::EPSILON / 2.0 * (1.0 + f64::EPSILON);
    x + (f64::MIN_POSITIVE * f64::EPSILON + phi * x.abs())
}

fn rough_pred(x: f64) -> f64 {
    let phi = f64::EPSILON / 2.0 * (1.0 + f64::EPSILON);
    x - (f64::MIN_POSITIVE * f64::EPSILON + phi * x.abs())
}

struct XorShift(u64);

impl XorShift {
    fn next(&mut self) -> u64 {
        let mut x = self.0;
        x ^= x << 13;
        x ^= x >> 7;
        x ^= x << 17;
        self.0 = x;
        x
    }

    /// A value in [0, 1), as a uniform generator of floats gives.
    fn unit(&mut self) -> f64 {
        (self.next() >> 11) as f64 / (1u64 << 53) as f64
    }

    /// Any pattern at all: NaNs, infinities, subnormals included.
    fn any(&mut self) -> f64 {
        f64::from_bits(self.next())
    }

    /// Alternately a value in [0, 1) and an arbitrary pattern.
    fn gen(&mut self, i: u32) -> f64 {
        if i % 2 == 0 { self.unit() } else { self.any() }
    }
}

const ROUNDS: u32 = 400_000;

fn check_tight(x: f64, y: f64, exact_nearest: f64) {
    assert!(y <= exact_nearest && exact_nearest <= x);
    assert!(x == fsucc(y) || x == y || y == f64::NEG_INFINITY);
}

#[test]
fn emulation_addition() {
    let mut rng = XorShift(0x9e37_79b9_7f4a_7c15);
    for i in 0..ROUNDS {
        let (a, c) = (rng.gen(i), rng.gen(i + 1));
        let (x, y) = (emu_add_up(a, c), emu_add_down(a, c));
        if !(a != a || c != c || a + c != a + c) {
            check_tight(x, y, a + c);
        } else {
            assert!(x != x && y != y);
        }
    }
}

#[test]
fn emulation_subtraction() {
    let mut rng = XorShift(0x2545_f491_4f6c_dd1d);
    for i in 0..ROUNDS {
        let (a, c) = (rng.gen(i), rng.gen(i + 1));
        let (x, y) = (emu_sub_up(a, c), emu_sub_down(a, c));
        if !(a != a || c != c || a - c != a - c) {
            check_tight(x, y, a - c);
        } else {
            assert!(x != x && y != y);
        }
    }
}

#[test]
fn emulation_multiplication() {
    let mut rng = XorShift(0x1234_5678_9abc_def1);
    for i in 0..ROUNDS {
        let (a, c) = (rng.gen(i), rng.gen(i + 1));
        let (x, y) = (emu_mul_up(a, c), emu_mul_down(a, c));
        if !(a != a || c != c || a * c != a * c) {
            check_tight(x, y, a * c);
        } else {
            assert!(x != x && y != y);
        }
    }
}

#[test]
fn emulation_division() {
    let mut rng = XorShift(0x0f0f_1234_abcd_9876);
    for i in 0..ROUNDS {
        let (a, c) = (rng.gen(i), rng.gen(i + 1));
        let (x, y) = (emu_div_up(a, c), emu_div_down(a, c));
        if !(a != a || c != c || a / c != a / c) {
            check_tight(x, y, a / c);
        } else {
            assert!(x != x && y != y);
        }
    }
}

#[test]
fn emulation_sqrt() {
    let mut rng = XorShift(0x7777_1111_3333_5555);
    for i in 0..ROUNDS {
        let a = rng.gen(i);
        let (x, y) = (emu_sqrt_up(a), emu_sqrt_down(a));
        if !(a != a || a.sqrt() != a.sqrt()) {
            check_tight(x, y, a.sqrt());
        } else {
            assert!(x != x && y != y);
        }
    }
}

#[test]
fn emulation_brackets_a_sum_just_below_eleven() {
    let (a, c) = (fpred(1.0), fpred(10.0));
    assert_eq!(a, 0.9999999999999999);
    assert_eq!(c, 9.999999999999998);
    let (up, down) = (emu_add_up(a, c), emu_add_down(a, c));
    assert!(down <= 10.999999999999998 && 10.999999999999998 <= up);
    assert!(up == down || up == fsucc(down));
    assert_eq!(down, 10.999999999999996);
    assert_eq!(up, 10.999999999999998);
}

#[test]
fn emulation_brackets_a_negative_quotient() {
    let (up, down) = (emu_div_up(2345.56, -74.12), emu_div_down(2345.56, -74.12));
    let nearest = 2345.56 / -74.12;
    assert!(up.is_finite() && down.is_finite());
    assert!(down < 0.0 && up < 0.0);
    assert!(down <= nearest && nearest <= up);
    assert!(up == down || up == fsucc(down));
    assert!(up > -31.6455 && down < -31.6454);
    assert_eq!(up, nearest);
    assert_eq!(down, fpred(nearest));
}

#[test]
fn emulation_brackets_the_root_of_two() {
    let (up, down) = (emu_sqrt_up(2.0), emu_sqrt_down(2.0));
    assert!(up >= down);
    assert!(down <= 1.4142135623730951 && 1.4142135623730951 <= up);
    assert!(up == down || up == fsucc(down));
    assert_eq!(up, 1.4142135623730951);
    assert_eq!(down, 1.414213562373095);
}

#[test]
fn emulation_saturates_an_overflowing_product() {
    assert_eq!(emu_mul_up(f64::MAX, 2.0), f64::INFINITY);
    assert_eq!(emu_mul_down(f64::MAX, 2.0), f64::MAX);
    assert_eq!(emu_mul_down(-f64::MAX, -2.0), f64::MAX);
    assert_eq!(emu_mul_up(f64::MAX, -2.0), -f64::MAX);
    assert_eq!(emu_mul_down(f64::MAX, -2.0), f64::NEG_INFINITY);
    assert_eq!(emu_mul_up(f64::INFINITY, -2.0), f64::NEG_INFINITY);
    assert_eq!(emu_mul_down(f64::NEG_INFINITY, -2.0), f64::INFINITY);
}

#[test]
fn emulation_saturates_an_overflowing_sum() {
    assert_eq!(emu_add_up(f64::MAX, f64::MAX), f64::INFINITY);
    assert_eq!(emu_add_down(f64::MAX, f64::MAX), f64::MAX);
    assert_eq!(emu_add_up(-f64::MAX, -f64::MAX), -f64::MAX);
    assert_eq!(emu_add_down(-f64::MAX, -f64::MAX), f64::NEG_INFINITY);
    assert_eq!(emu_add_down(f64::INFINITY, 1.0), f64::INFINITY);
    assert_eq!(emu_add_up(f64::NEG_INFINITY, 1.0), f64::NEG_INFINITY);
}

#[test]
fn emulation_steps_only_on_inexact_results() {
    assert_eq!(emu_add_up(1.0, 2.0), 3.0);
    assert_eq!(emu_add_down(1.0, 2.0), 3.0);
    assert_eq!(emu_add_up(1.0, 1e-30), fsucc(1.0));
    assert_eq!(emu_add_down(1.0, 1e-30), 1.0);
    assert_eq!(emu_add_down(1.0, -1e-30), fpred(1.0));
    assert_eq!(emu_mul_up(0.1, 3.0), 0.30000000000000004);
    assert_eq!(emu_mul_down(0.1, 3.0), 0.3);
    assert_eq!(emu_div_up(1.0, 3.0), fsucc(1.0 / 3.0));
    assert_eq!(emu_div_down(1.0, 3.0), 1.0 / 3.0);
    assert_eq!(emu_sqrt_up(4.0), 2.0);
    assert_eq!(emu_sqrt_down(4.0), 2.0);
}

#[test]
fn emulation_near_underflow() {
    let tiny = f64::MIN_POSITIVE * f64::EPSILON;
    assert_eq!(emu_mul_up(tiny, 0.5), tiny);
    assert_eq!(emu_mul_down(tiny, 0.5), 0.0);
    assert_eq!(emu_mul_down(-tiny, 0.5), -tiny);
    assert_eq!(emu_mul_up(-tiny, 0.5), 0.0);
    assert_eq!(emu_div_up(tiny, 3.0), tiny);
    assert_eq!(emu_div_down(tiny, 3.0), 0.0);
    assert_eq!(emu_div_up(tiny, 1e300), tiny);
    assert_eq!(emu_div_down(-tiny, 1e300), -tiny);
    assert_eq!(emu_div_up(-tiny, 1e300), 0.0);
    assert_eq!(emu_mul_up(1e300, 0.0), 0.0);
    assert_eq!(emu_sqrt_up(tiny), 2f64.powi(-537));
    assert_eq!(emu_sqrt_down(tiny), 2f64.powi(-537));
    assert_eq!(emu_sqrt_up(2.0 * tiny), fsucc(emu_sqrt_down(2.0 * tiny)));
}

#[test]
fn emulation_propagates_nan() {
    for &v in &[0.0, 1.0, -2.5, f64::INFINITY, f64::MAX] {
        assert!(emu_add_up(f64::NAN, v).is_nan() && emu_add_down(v, f64::NAN).is_nan());
        assert!(emu_sub_up(f64::NAN, v).is_nan() && emu_sub_down(v, f64::NAN).is_nan());
        assert!(emu_mul_up(f64::NAN, v).is_nan() && emu_mul_down(v, f64::NAN).is_nan());
        assert!(emu_div_up(f64::NAN, v).is_nan() && emu_div_down(v, f64::NAN).is_nan());
    }
    assert!(emu_sqrt_up(f64::NAN).is_nan() && emu_sqrt_down(f64::NAN).is_nan());
    assert!(emu_sqrt_up(-1.0).is_nan() && emu_sqrt_down(-1.0).is_nan());
    assert!(emu_add_up(f64::INFINITY, f64::NEG_INFINITY).is_nan());
    assert!(emu_mul_down(0.0, f64::INFINITY).is_nan());
    assert!(emu_div_up(0.0, 0.0).is_nan());
}

#[test]
fn emulation_subtraction_is_addition_of_the_negation() {
    let mut rng = XorShift(0xdead_beef_cafe_f00d);
    for i in 0..100_000 {
        let (a, c) = (rng.gen(i), rng.gen(i + 1));
        let (u1, u2) = (emu_sub_up(a, c), emu_add_up(a, -c));
        let (d1, d2) = (emu_sub_down(a, c), emu_add_down(a, -c));
        assert!(u1 == u2 || (u1.is_nan() && u2.is_nan()));
        assert!(d1 == d2 || (d1.is_nan() && d2.is_nan()));
    }
}

#[test]
fn emulation_division_by_zero_and_infinity() {
    assert_eq!(emu_div_up(1.0, 0.0), f64::INFINITY);
    assert_eq!(emu_div_down(1.0, -0.0), f64::NEG_INFINITY);
    assert_eq!(emu_div_up(1.0, f64::INFINITY), 0.0);
    assert_eq!(emu_div_down(f64::MAX, 0.5), f64::MAX);
    assert_eq!(emu_div_up(f64::MAX, 0.5), f64::INFINITY);
    assert_eq!(emu_div_up(f64::MAX, -0.5), -f64::MAX);
}

fn sp_add_up(a: f64, c: f64) -> f64 {
    f(SuccPred::add_up(b(a), b(c), b(a + c)))
}

fn sp_add_down(a: f64, c: f64) -> f64 {
    f(SuccPred::add_down(b(a), b(c), b(a + c)))
}

fn sp_sub_up(a: f64, c: f64) -> f64 {
    f(SuccPred::sub_up(b(a), b(c), b(a - c)))
}

fn sp_sub_down(a: f64, c: f64) -> f64 {
    f(SuccPred::sub_down(b(a), b(c), b(a - c)))
}

fn sp_mul_up(a: f64, c: f64) -> f64 {
    f(SuccPred::mul_up(b(a), b(c), b(a * c)))
}

fn sp_mul_down(a: f64, c: f64) -> f64 {
    f(SuccPred::mul_down(b(a), b(c), b(a * c)))
}

fn sp_div_up(a: f64, c: f64) -> f64 {
    f(SuccPred::div_up(b(a), b(c), b(a / c)))
}

fn sp_div_down(a: f64, c: f64) -> f64 {
    f(SuccPred::div_down(b(a), b(c), b(a / c)))
}

fn sp_sqrt_up(a: f64) -> f64 {
    f(SuccPred::sqrt_up(b(a), b(a.sqrt())))
}

fn sp_sqrt_down(a: f64) -> f64 {
    f(SuccPred::sqrt_down(b(a), b(a.sqrt())))
}

fn check_two_steps(x: f64, y: f64, nearest: f64) {
    assert!(y <= nearest && nearest <= x);
    assert!(fpred(x) == fsucc(y) || x.is_infinite() || y.is_infinite());
}

#[test]
fn succpred_addition() {
    let mut rng = XorShift(0x9e37_79b9_7f4a_7c15);
    for i in 0..ROUNDS {
        let (a, c) = (rng.gen(i), rng.gen(i + 1));
        let (x, y) = (sp_add_up(a, c), sp_add_down(a, c));
        if !(a != a || c != c || a + c != a + c) {
            check_two_steps(x, y, a + c);
        } else {
            assert!(x != x && y != y);
        }
    }
}

#[test]
fn succpred_subtraction() {
    let mut rng = XorShift(0x2545_f491_4f6c_dd1d);
    for i in 0..ROUNDS {
        let (a, c) = (rng.gen(i), rng.gen(i + 1));
        let (x, y) = (sp_sub_up(a, c), sp_sub_down(a, c));
        if !(a != a || c != c || a - c != a - c) {
            check_two_steps(x, y, a - c);
        } else {
            assert!(x != x && y != y);
        }
    }
}

#[test]
fn succpred_multiplication() {
    let mut rng = XorShift(0x1234_5678_9abc_def1);
    for i in 0..ROUNDS {
        let (a, c) = (rng.gen(i), rng.gen(i + 1));
        let (x, y) = (sp_mul_up(a, c), sp_mul_down(a, c));
        if !(a != a || c != c || a * c != a * c) {
            check_two_steps(x, y, a * c);
        } else {
            assert!(x != x && y != y);
        }
    }
}

#[test]
fn succpred_division() {
    let mut rng = XorShift(0x0f0f_1234_abcd_9876);
    for i in 0..ROUNDS {
        let (a, c) = (rng.gen(i), rng.gen(i + 1));
        let (x, y) = (sp_div_up(a, c), sp_div_down(a, c));
        if !(a != a || c != c || a / c != a / c) {
            check_two_steps(x, y, a / c);
        } else {
            assert!(x != x && y != y);
        }
    }
}

#[test]
fn succpred_sqrt() {
    let mut rng = XorShift(0x7777_1111_3333_5555);
    for i in 0..ROUNDS {
        let a = rng.gen(i);
        let (x, y) = (sp_sqrt_up(a), sp_sqrt_down(a));
        if !(a != a || a.sqrt() != a.sqrt()) {
            check_two_steps(x, y, a.sqrt());
        } else {
            assert!(x != x && y != y);
        }
    }
}

#[test]
fn succpred_steps_even_on_exact_results() {
    assert_eq!(sp_add_up(1.0, 2.0), fsucc(3.0));
    assert_eq!(sp_add_down(1.0, 2.0), fpred(3.0));
    assert_eq!(sp_mul_up(f64::MAX, 2.0), f64::INFINITY);
    assert_eq!(sp_mul_down(f64::MAX, 2.0), f64::MAX);
    assert_eq!(sp_mul_down(f64::NEG_INFINITY, -2.0), f64::INFINITY);
    assert_eq!(sp_div_up(-1.0, 0.0), f64::NEG_INFINITY);
    assert_eq!(sp_div_up(-f64::MAX, 0.5), -f64::MAX);
    assert_eq!(sp_sqrt_down(f64::INFINITY), f64::INFINITY);
}

fn rw_add_up(a: f64, c: f64) -> f64 {
    let x = a + c;
    f(RoughWrapping::add_up(b(a), b(c), b(x), b(rough_succ(x))))
}

fn rw_add_down(a: f64, c: f64) -> f64 {
    let x = a + c;
    f(RoughWrapping::add_down(b(a), b(c), b(x), b(rough_pred(x))))
}

fn rw_sub_up(a: f64, c: f64) -> f64 {
    let x = a - c;
    f(RoughWrapping::sub_up(b(a), b(c), b(x), b(rough_succ(x))))
}

fn rw_sub_down(a: f64, c: f64) -> f64 {
    let x = a - c;
    f(RoughWrapping::sub_down(b(a), b(c), b(x), b(rough_pred(x))))
}

fn rw_mul_up(a: f64, c: f64) -> f64 {
    let x = a * c;
    f(RoughWrapping::mul_up(b(a), b(c), b(x), b(rough_succ(x))))
}

fn rw_mul_down(a: f64, c: f64) -> f64 {
    let x = a * c;
    f(RoughWrapping::mul_down(b(a), b(c), b(x), b(rough_pred(x))))
}

fn rw_div_up(a: f64, c: f64) -> f64 {
    let x = a / c;
    f(RoughWrapping::div_up(b(a), b(c), b(x), b(rough_succ(x))))
}

fn rw_div_down(a: f64, c: f64) -> f64 {
    let x = a / c;
    f(RoughWrapping::div_down(b(a), b(c), b(x), b(rough_pred(x))))
}

fn rw_sqrt_up(a: f64) -> f64 {
    let x = a.sqrt();
    f(RoughWrapping::sqrt_up(b(a), b(x), b(rough_succ(x))))
}

fn rw_sqrt_down(a: f64) -> f64 {
    let x = a.sqrt();
    f(RoughWrapping::sqrt_down(b(a), b(x), b(rough_pred(x))))
}

#[test]
fn roughwrap_addition() {
    let mut rng = XorShift(0x9e37_79b9_7f4a_7c15);
    for _ in 0..ROUNDS {
        let (a, c) = (rng.unit(), rng.unit());
        let (x, y) = (rw_add_up(a, c), rw_add_down(a, c));
        if !(a != a || c != c || a + c != a + c) {
            assert!(fpred(a + c) <= y && x <= fsucc(a + c));
            assert!(x >= emu_add_up(a, c) && y <= emu_add_down(a, c));
        } else {
            assert!(x != x && y != y);
        }
    }
}

#[test]
fn roughwrap_subtraction() {
    let mut rng = XorShift(0x2545_f491_4f6c_dd1d);
    for _ in 0..ROUNDS {
        let (a, c) = (rng.unit(), rng.unit());
        let (x, y) = (rw_sub_up(a, c), rw_sub_down(a, c));
        if !(a != a || c != c || a - c != a - c) {
            assert!(fpred(a - c) <= y && x <= fsucc(a - c));
            assert!(x >= emu_sub_up(a, c) && y <= emu_sub_down(a, c));
        } else {
            assert!(x != x && y != y);
        }
    }
}

#[test]
fn roughwrap_multiplication() {
    let mut rng = XorShift(0x1234_5678_9abc_def1);
    for _ in 0..ROUNDS {
        let (a, c) = (rng.unit(), rng.unit());
        let (x, y) = (rw_mul_up(a, c), rw_mul_down(a, c));
        if !(a != a || c != c || a * c != a * c) {
            assert!(fpred(a * c) <= y && x <= fsucc(a * c));
            assert!(x >= emu_mul_up(a, c) && y <= emu_mul_down(a, c));
        } else {
            assert!(x != x && y != y);
        }
    }
}

#[test]
fn roughwrap_division() {
    let mut rng = XorShift(0x0f0f_1234_abcd_9876);
    for _ in 0..ROUNDS {
        let (a, c) = (rng.unit(), rng.unit());
        let (x, y) = (rw_div_up(a, c), rw_div_down(a, c));
        if !(a != a || c != c || a / c != a / c) {
            assert!(fpred(a / c) <= y && x <= fsucc(a / c));
            assert!(x >= emu_div_up(a, c) && y <= emu_div_down(a, c));
        } else {
            assert!(x != x && y != y);
        }
    }
}

#[test]
fn roughwrap_sqrt() {
    let mut rng = XorShift(0x7777_1111_3333_5555);
    for _ in 0..ROUNDS {
        let a = rng.unit();
        let (x, y) = (rw_sqrt_up(a), rw_sqrt_down(a));
        if !(a != a || a.sqrt() != a.sqrt()) {
            assert!(x <= fsucc(a.sqrt()) && fpred(a.sqrt()) <= y);
            assert!(x >= emu_sqrt_up(a) && y <= emu_sqrt_down(a));
        } else {
            assert!(x != x && y != y);
        }
    }
}

#[test]
fn roughwrap_contains_emulation_on_any_operands() {
    let mut rng = XorShift(0x5555_aaaa_3c3c_c3c3);
    for _ in 0..ROUNDS {
        let (a, c) = (rng.any(), rng.any());
        let pairs = [
            (rw_add_up(a, c), emu_add_up(a, c), rw_add_down(a, c), emu_add_down(a, c)),
            (rw_sub_up(a, c), emu_sub_up(a, c), rw_sub_down(a, c), emu_sub_down(a, c)),
            (rw_mul_up(a, c), emu_mul_up(a, c), rw_mul_down(a, c), emu_mul_down(a, c)),
            (rw_div_up(a, c), emu_div_up(a, c), rw_div_down(a, c), emu_div_down(a, c)),
            (rw_sqrt_up(a), emu_sqrt_up(a), rw_sqrt_down(a), emu_sqrt_down(a)),
        ];
        for &(ru, eu, rd, ed) in pairs.iter() {
            assert!(ru >= eu || (ru.is_nan() && eu.is_nan()));
            assert!(rd <= ed || (rd.is_nan() && ed.is_nan()));
        }
    }
}

#[test]
fn roughwrap_saturates_overflow() {
    assert_eq!(rw_mul_up(f64::MAX, -2.0), -f64::MAX);
    assert_eq!(rw_mul_down(f64::MAX, 2.0), f64::MAX);
    assert_eq!(rw_add_down(f64::INFINITY, 1.0), f64::INFINITY);
    assert_eq!(rw_add_up(1.0, 2.0), fsucc(3.0));
    assert_eq!(rw_add_down(1.0, 2.0), fpred(3.0));
}

/// Operands on which the unchecked strategies are owed a result: finite,
/// with a finite result whose error terms are exact.
fn in_range(a: f64, c: f64, x: f64) -> bool {
    let small = 2f64.powi(-969);
    a.is_finite() && c.is_finite() && x.is_finite() && a.abs() >= small && c.abs() >= small
        && x.abs() > small
}

#[test]
fn emulation_unchecked_addition() {
    let mut rng = XorShift(0x9e37_79b9_7f4a_7c15);
    for _ in 0..ROUNDS {
        let (a, c) = (rng.unit(), rng.unit());
        if in_range(a, c, a + c) {
            let s = two_sum(a, c);
            let x = f(EmulationRegularUnchecked::add_up(b(a), b(c), s));
            let y = f(EmulationRegularUnchecked::add_down(b(a), b(c), s));
            assert!(y <= a + c && a + c <= x);
            assert!(x == fsucc(y) || x == y);
        }
    }
}

#[test]
fn emulation_unchecked_subtraction() {
    let mut rng = XorShift(0x2545_f491_4f6c_dd1d);
    for _ in 0..ROUNDS {
        let (a, c) = (rng.unit(), rng.unit());
        if in_range(a, c, a - c) {
            let s = two_sum(a, -c);
            let x = f(EmulationRegularUnchecked::sub_up(b(a), b(c), s));
            let y = f(EmulationRegularUnchecked::sub_down(b(a), b(c), s));
            assert!(y <= a - c && a - c <= x);
            assert!(x == fsucc(y) || x == y);
        }
    }
}

#[test]
fn emulation_unchecked_multiplication() {
    let mut rng = XorShift(0x1234_5678_9abc_def1);
    for _ in 0..ROUNDS {
        let (a, c) = (rng.unit(), rng.unit());
        if in_range(a, c, a * c) {
            let p = two_product(a, c);
            let x = f(EmulationRegularUnchecked::mul_up(b(a), b(c), p));
            let y = f(EmulationRegularUnchecked::mul_down(b(a), b(c), p));
            assert!(y <= a * c && a * c <= x);
            assert!(x == fsucc(y) || x == y);
        }
    }
}

#[test]
fn emulation_unchecked_division() {
    let mut rng = XorShift(0x0f0f_1234_abcd_9876);
    for _ in 0..ROUNDS {
        let (a, c) = (rng.unit(), rng.unit());
        let d = a / c;
        if in_range(a, c, d) {
            let p = two_product(d, c);
            let x = f(EmulationRegularUnchecked::div_up(b(a), b(c), b(d), p));
            let y = f(EmulationRegularUnchecked::div_down(b(a), b(c), b(d), p));
            assert!(y <= d && d <= x);
            assert!(x == fsucc(y) || x == y);
        }
    }
}

#[test]
fn emulation_unchecked_sqrt() {
    let mut rng = XorShift(0x7777_1111_3333_5555);
    for _ in 0..ROUNDS {
        let a = rng.unit();
        let r = a.sqrt();
        if in_range(a, a, r) {
            let p = two_product(r, r);
            let x = f(EmulationRegularUnchecked::sqrt_up(b(a), b(r), p));
            let y = f(EmulationRegularUnchecked::sqrt_down(b(a), b(r), p));
            assert!(y <= r && r <= x);
            assert!(x == fsucc(y) || x == y);
        }
    }
}

#[test]
fn emulation_unchecked_agrees_with_checked() {
    let mut rng = XorShift(0x0123_4567_89ab_cdef);
    for _ in 0..100_000 {
        let (a, c) = (rng.any(), rng.any());
        if in_range(a, c, a + c) {
            let s = two_sum(a, c);
            assert_eq!(f(EmulationRegularUnchecked::add_up(b(a), b(c), s)), emu_add_up(a, c));
            assert_eq!(f(EmulationRegularUnchecked::add_down(b(a), b(c), s)), emu_add_down(a, c));
        }
        if in_range(a, c, a * c) {
            let p = two_product(a, c);
            assert_eq!(f(EmulationRegularUnchecked::mul_up(b(a), b(c), p)), emu_mul_up(a, c));
            assert_eq!(f(EmulationRegularUnchecked::mul_down(b(a), b(c), p)), emu_mul_down(a, c));
        }
        let d = a / c;
        if in_range(a, c, d) {
            let p = two_product(d, c);
            assert_eq!(f(EmulationRegularUnchecked::div_up(b(a), b(c), b(d), p)), emu_div_up(a, c));
            assert_eq!(
                f(EmulationRegularUnchecked::div_down(b(a), b(c), b(d), p)),
                emu_div_down(a, c)
            );
        }
    }
}

#[test]
fn succpred_unchecked_addition() {
    let mut rng = XorShift(0x9e37_79b9_7f4a_7c15);
    for _ in 0..ROUNDS {
        let (a, c) = (rng.unit(), rng.unit());
        let n = a + c;
        if n.is_finite() {
            let x = f(SuccPredUnchecked::add_up(b(a), b(c), b(n)));
            let y = f(SuccPredUnchecked::add_down(b(a), b(c), b(n)));
            check_two_steps(x, y, n);
        }
    }
}

#[test]
fn succpred_unchecked_subtraction() {
    let mut rng = XorShift(0x2545_f491_4f6c_dd1d);
    for _ in 0..ROUNDS {
        let (a, c) = (rng.unit(), rng.unit());
        let n = a - c;
        if n.is_finite() {
            let x = f(SuccPredUnchecked::sub_up(b(a), b(c), b(n)));
            let y = f(SuccPredUnchecked::sub_down(b(a), b(c), b(n)));
            check_two_steps(x, y, n);
        }
    }
}

#[test]
fn succpred_unchecked_multiplication() {
    let mut rng = XorShift(0x1234_5678_9abc_def1);
    for _ in 0..ROUNDS {
        let (a, c) = (rng.unit(), rng.unit());
        let n = a * c;
        if n.is_finite() {
            let x = f(SuccPredUnchecked::mul_up(b(a), b(c), b(n)));
            let y = f(SuccPredUnchecked::mul_down(b(a), b(c), b(n)));
            check_two_steps(x, y, n);
        }
    }
}

#[test]
fn succpred_unchecked_division() {
    let mut rng = XorShift(0x0f0f_1234_abcd_9876);
    for _ in 0..ROUNDS {
        let (a, c) = (rng.unit(), rng.unit());
        let n = a / c;
        if n.is_finite() {
            let x = f(SuccPredUnchecked::div_up(b(a), b(c), b(n)));
            let y = f(SuccPredUnchecked::div_down(b(a), b(c), b(n)));
            check_two_steps(x, y, n);
        }
    }
}

#[test]
fn succpred_unchecked_sqrt() {
    let mut rng = XorShift(0x7777_1111_3333_5555);
    for _ in 0..ROUNDS {
        let a = rng.unit();
        let n = a.sqrt();
        if n.is_finite() {
            let x = f(SuccPredUnchecked::sqrt_up(b(a), b(n)));
            let y = f(SuccPredUnchecked::sqrt_down(b(a), b(n)));
            check_two_steps(x, y, n);
        }
    }
}

#[test]
fn bounds_hold_on_a_tie_at_the_underflow_boundary() {
    let a = 2f64.powi(-1021);
    let c = f64::MIN_POSITIVE * f64::EPSILON;
    assert_eq!(a + c, a);
    assert_eq!(emu_add_up(a, c), fsucc(a));
    assert_eq!(emu_add_down(a, c), a);
    assert!(rw_add_up(a, c) > a);
    assert!(sp_add_up(a, c) > a);
}

#[test]
fn emulation_unchecked_division_of_zero() {
    for &c in &[3.0, -0.25, 1e300] {
        let d = 0.0 / c;
        let p = two_product(d, c);
        assert_eq!(f(EmulationRegularUnchecked::div_up(b(0.0), b(c), b(d), p)), 0.0);
        assert_eq!(f(EmulationRegularUnchecked::div_down(b(0.0), b(c), b(d), p)), 0.0);
    }
}
