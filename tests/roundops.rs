use roundops::{
    Binary64, DefaultRounding, Downward, EmulationRegular, ErrorFreePair, RoundAdd, RoundDiv,
    RoundMul, RoundSqrt, RoundSub, RoundedNum, RoundedSession, RoundingMethod, SuccPred, Upward,
    succ,
};

fn b(x: f64) -> Binary64 {
    Binary64::from_bits(x.to_bits())
}

fn f(x: Binary64) -> f64 {
    f64::from_bits(x.to_bits())
}

fn two_sum(a: f64, c: f64) -> ErrorFreePair {
    let x = a + c;
    let (big, small) = if a.abs() >= c.abs() { (a, c) } else { (c, a) };
    ErrorFreePair::new(b(x), b(small - (x - big)))
}

/// Tight addition and subtraction, stepped multiplication and division,
/// over `f64`.
#[derive(Clone)]
struct Mixed;

impl RoundingMethod for Mixed {
    type HostMethod = DefaultRounding;
    type Num = f64;
}

impl RoundAdd for Mixed {
    fn add_up(a: f64, c: f64) -> f64 {
        f(EmulationRegular::add_up(b(a), b(c), two_sum(a, c)))
    }

    fn add_down(a: f64, c: f64) -> f64 {
        f(EmulationRegular::add_down(b(a), b(c), two_sum(a, c)))
    }
}

impl RoundSub for Mixed {
    fn sub_up(a: f64, c: f64) -> f64 {
        f(EmulationRegular::sub_up(b(a), b(c), two_sum(a, -c)))
    }

    fn sub_down(a: f64, c: f64) -> f64 {
        f(EmulationRegular::sub_down(b(a), b(c), two_sum(a, -c)))
    }
}

impl RoundMul for Mixed {
    fn mul_up(a: f64, c: f64) -> f64 {
        f(SuccPred::mul_up(b(a), b(c), b(a * c)))
    }

    fn mul_down(a: f64, c: f64) -> f64 {
        f(SuccPred::mul_down(b(a), b(c), b(a * c)))
    }
}

impl RoundDiv for Mixed {
    fn div_up(a: f64, c: f64) -> f64 {
        f(SuccPred::div_up(b(a), b(c), b(a / c)))
    }

    fn div_down(a: f64, c: f64) -> f64 {
        f(SuccPred::div_down(b(a), b(c), b(a / c)))
    }
}

impl RoundSqrt for Mixed {
    fn sqrt_up(a: f64) -> f64 {
        f(SuccPred::sqrt_up(b(a), b(a.sqrt())))
    }

    fn sqrt_down(a: f64) -> f64 {
        f(SuccPred::sqrt_down(b(a), b(a.sqrt())))
    }
}

impl RoundedSession for Mixed {
    type Num = f64;
}

type Up = RoundedNum<Upward, f64, Mixed>;
type Down = RoundedNum<Downward, f64, Mixed>;

fn next(x: f64) -> f64 {
    f(succ(b(x)))
}

#[test]
fn rounded_num_keeps_its_value() {
    assert_eq!(Up::new(1.25).extract(), 1.25);
    assert_eq!(Down::new(-3.5).clone().extract(), -3.5);
}

#[test]
fn operators_follow_the_direction() {
    let up = (Up::new(0.1) + Up::new(0.2)).extract();
    let down = (Down::new(0.1) + Down::new(0.2)).extract();
    assert_eq!(up, 0.30000000000000004);
    assert_eq!(down, 0.3);
    assert_eq!((Up::new(1.0) - Up::new(1e-30)).extract(), 1.0);
    assert_eq!((Down::new(1.0) - Down::new(1e-30)).extract(), 1.0 - f64::EPSILON / 2.0);
    assert_eq!((Up::new(3.0) * Up::new(0.5)).extract(), next(1.5));
    assert!((Down::new(1.0) / Down::new(3.0)).extract() < 1.0 / 3.0);
    assert!(Up::new(2.0).sqrt().extract() > 2f64.sqrt());
    assert!(Down::new(2.0).sqrt().extract() < 2f64.sqrt());
}

fn sum_all(v: Vec<Up>) -> Vec<Up> {
    let mut acc = Up::new(0.0);
    for x in v {
        acc = acc + x;
    }
    vec![acc]
}

fn sum_all_down(v: Vec<Down>) -> Vec<Down> {
    let mut acc = Down::new(0.0);
    for x in v {
        acc = acc + x;
    }
    vec![acc]
}

#[test]
fn session_runs_a_computation_in_one_direction() {
    let v = vec![1., 10., 3146136.314, 6136.1346, 5367.67467, -134562.4537];
    let up = Mixed::calc_with(v.clone(), sum_all);
    let down = Mixed::calc_with(v.clone(), sum_all_down);
    assert_eq!(up.len(), 1);
    assert_eq!(down.len(), 1);
    assert!(up[0] > down[0]);
    let nearest: f64 = v.iter().sum();
    assert!(down[0] <= nearest && nearest <= up[0]);
}

#[test]
fn session_keeps_order_and_length() {
    let v = vec![1.0, 2.0, 3.0];
    let same = Mixed::calc_with::<Upward, _>(v.clone(), |x| x);
    assert_eq!(same, v);
    let empty = Mixed::calc_with::<Downward, _>(Vec::new(), |x| x);
    assert!(empty.is_empty());
}
