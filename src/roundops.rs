use vstd::prelude::*;
use core::marker::PhantomData;

verus! {

/// How a rounding method obtains directed results from the host.
pub trait NativeRoundingMode {}

/// The host keeps its default rounding to nearest; the method emulates
/// directed rounding in software.
pub struct DefaultRounding;

impl NativeRoundingMode for DefaultRounding {}

/// The host switches its own rounding mode for each directed operation.
pub struct Switchable;

impl NativeRoundingMode for Switchable {}

/// A stateless strategy of directed arithmetic over one number type.
pub trait RoundingMethod {
    type HostMethod: NativeRoundingMode;
    type Num;
}

pub trait RoundAdd: RoundingMethod {
    fn add_up(lhs: Self::Num, rhs: Self::Num) -> Self::Num;

    fn add_down(lhs: Self::Num, rhs: Self::Num) -> Self::Num;
}

pub trait RoundSub: RoundingMethod {
    fn sub_up(lhs: Self::Num, rhs: Self::Num) -> Self::Num;

    fn sub_down(lhs: Self::Num, rhs: Self::Num) -> Self::Num;
}

pub trait RoundMul: RoundingMethod {
    fn mul_up(lhs: Self::Num, rhs: Self::Num) -> Self::Num;

    fn mul_down(lhs: Self::Num, rhs: Self::Num) -> Self::Num;
}

pub trait RoundDiv: RoundingMethod {
    fn div_up(lhs: Self::Num, rhs: Self::Num) -> Self::Num;

    fn div_down(lhs: Self::Num, rhs: Self::Num) -> Self::Num;
}

pub trait RoundSqrt: RoundMul {
    fn sqrt_up(n: Self::Num) -> Self::Num;

    fn sqrt_down(n: Self::Num) -> Self::Num;
}

/// The four arithmetic operations, in both directions, over `T`.
pub trait RoundOps<T>: RoundAdd<Num = T> + RoundSub<Num = T> + RoundMul<Num = T> + RoundDiv<
    Num = T,
> {

}

impl<S, T> RoundOps<T> for S where
    S: RoundAdd<Num = T> + RoundSub<Num = T> + RoundMul<Num = T> + RoundDiv<Num = T>,
 {

}

/// A rounding direction, known at compile time.
pub trait Direction: Clone {
    /// The opposite direction.
    // Not bounded by `Direction`: Verus refuses the cycle that the bound
    // makes between the impls for `Upward` and `Downward`.
    type Inversed;
}

#[derive(Clone, Copy)]
pub struct Upward;

impl Direction for Upward {
    type Inversed = Downward;
}

#[derive(Clone, Copy)]
pub struct Downward;

impl Direction for Downward {
    type Inversed = Upward;
}

/// A number tagged with a rounding direction and a rounding method.
///
/// The tags cost nothing at run time; the operators are defined only
/// between numbers that carry the same tags.
pub struct RoundedNum<Dir: Direction, Num, Method>(Num, PhantomData<(Dir, Method)>);

impl<Dir: Direction, Num, Method> RoundedNum<Dir, Num, Method> {
    /// The number carried.
    pub closed spec fn num(self) -> Num {
        self.0
    }

    pub fn new(num: Num) -> (r: Self)
        ensures
            r.num() == num,
    {
        RoundedNum(num, PhantomData)
    }

    pub fn extract(self) -> (r: Num)
        ensures
            r == self.num(),
    {
        self.0
    }
}

// `RoundedNum` has no `Neg`: negating a value of a generic number type
// stops Verus with an internal error, so the operator cannot stand here.
impl<Dir: Direction, Num: Clone, Method> Clone for RoundedNum<Dir, Num, Method> {
    fn clone(&self) -> (r: Self) {
        RoundedNum(self.0.clone(), PhantomData)
    }
}

impl<N, M: RoundAdd<Num = N>> core::ops::Add<RoundedNum<Upward, N, M>> for
    RoundedNum<Upward, N, M> {
    type Output = RoundedNum<Upward, N, M>;

    fn add(self, rhs: RoundedNum<Upward, N, M>) -> (r: RoundedNum<Upward, N, M>)
        ensures
            call_ensures(M::add_up, (self.num(), rhs.num()), r.num()),
    {
        RoundedNum(M::add_up(self.0, rhs.0), PhantomData)
    }
}

impl<N, M: RoundAdd<Num = N>> vstd::std_specs::ops::AddSpecImpl<RoundedNum<Upward, N, M>> for
    RoundedNum<Upward, N, M> {
    open spec fn obeys_add_spec() -> bool {
        false
    }

    open spec fn add_req(self, rhs: RoundedNum<Upward, N, M>) -> bool {
        true
    }

    open spec fn add_spec(self, rhs: RoundedNum<Upward, N, M>) -> RoundedNum<Upward, N, M> {
        arbitrary()
    }
}

impl<N, M: RoundAdd<Num = N>> core::ops::Add<RoundedNum<Downward, N, M>> for
    RoundedNum<Downward, N, M> {
    type Output = RoundedNum<Downward, N, M>;

    fn add(self, rhs: RoundedNum<Downward, N, M>) -> (r: RoundedNum<Downward, N, M>)
        ensures
            call_ensures(M::add_down, (self.num(), rhs.num()), r.num()),
    {
        RoundedNum(M::add_down(self.0, rhs.0), PhantomData)
    }
}

impl<N, M: RoundAdd<Num = N>> vstd::std_specs::ops::AddSpecImpl<RoundedNum<Downward, N, M>> for
    RoundedNum<Downward, N, M> {
    open spec fn obeys_add_spec() -> bool {
        false
    }

    open spec fn add_req(self, rhs: RoundedNum<Downward, N, M>) -> bool {
        true
    }

    open spec fn add_spec(self, rhs: RoundedNum<Downward, N, M>) -> RoundedNum<Downward, N, M> {
        arbitrary()
    }
}

impl<N, M: RoundSub<Num = N>> core::ops::Sub<RoundedNum<Upward, N, M>> for
    RoundedNum<Upward, N, M> {
    type Output = RoundedNum<Upward, N, M>;

    fn sub(self, rhs: RoundedNum<Upward, N, M>) -> (r: RoundedNum<Upward, N, M>)
        ensures
            call_ensures(M::sub_up, (self.num(), rhs.num()), r.num()),
    {
        RoundedNum(M::sub_up(self.0, rhs.0), PhantomData)
    }
}

impl<N, M: RoundSub<Num = N>> vstd::std_specs::ops::SubSpecImpl<RoundedNum<Upward, N, M>> for
    RoundedNum<Upward, N, M> {
    open spec fn obeys_sub_spec() -> bool {
        false
    }

    open spec fn sub_req(self, rhs: RoundedNum<Upward, N, M>) -> bool {
        true
    }

    open spec fn sub_spec(self, rhs: RoundedNum<Upward, N, M>) -> RoundedNum<Upward, N, M> {
        arbitrary()
    }
}

impl<N, M: RoundSub<Num = N>> core::ops::Sub<RoundedNum<Downward, N, M>> for
    RoundedNum<Downward, N, M> {
    type Output = RoundedNum<Downward, N, M>;

    fn sub(self, rhs: RoundedNum<Downward, N, M>) -> (r: RoundedNum<Downward, N, M>)
        ensures
            call_ensures(M::sub_down, (self.num(), rhs.num()), r.num()),
    {
        RoundedNum(M::sub_down(self.0, rhs.0), PhantomData)
    }
}

impl<N, M: RoundSub<Num = N>> vstd::std_specs::ops::SubSpecImpl<RoundedNum<Downward, N, M>> for
    RoundedNum<Downward, N, M> {
    open spec fn obeys_sub_spec() -> bool {
        false
    }

    open spec fn sub_req(self, rhs: RoundedNum<Downward, N, M>) -> bool {
        true
    }

    open spec fn sub_spec(self, rhs: RoundedNum<Downward, N, M>) -> RoundedNum<Downward, N, M> {
        arbitrary()
    }
}

impl<N, M: RoundMul<Num = N>> core::ops::Mul<RoundedNum<Upward, N, M>> for
    RoundedNum<Upward, N, M> {
    type Output = RoundedNum<Upward, N, M>;

    fn mul(self, rhs: RoundedNum<Upward, N, M>) -> (r: RoundedNum<Upward, N, M>)
        ensures
            call_ensures(M::mul_up, (self.num(), rhs.num()), r.num()),
    {
        RoundedNum(M::mul_up(self.0, rhs.0), PhantomData)
    }
}

impl<N, M: RoundMul<Num = N>> vstd::std_specs::ops::MulSpecImpl<RoundedNum<Upward, N, M>> for
    RoundedNum<Upward, N, M> {
    open spec fn obeys_mul_spec() -> bool {
        false
    }

    open spec fn mul_req(self, rhs: RoundedNum<Upward, N, M>) -> bool {
        true
    }

    open spec fn mul_spec(self, rhs: RoundedNum<Upward, N, M>) -> RoundedNum<Upward, N, M> {
        arbitrary()
    }
}

impl<N, M: RoundMul<Num = N>> core::ops::Mul<RoundedNum<Downward, N, M>> for
    RoundedNum<Downward, N, M> {
    type Output = RoundedNum<Downward, N, M>;

    fn mul(self, rhs: RoundedNum<Downward, N, M>) -> (r: RoundedNum<Downward, N, M>)
        ensures
            call_ensures(M::mul_down, (self.num(), rhs.num()), r.num()),
    {
        RoundedNum(M::mul_down(self.0, rhs.0), PhantomData)
    }
}

impl<N, M: RoundMul<Num = N>> vstd::std_specs::ops::MulSpecImpl<RoundedNum<Downward, N, M>> for
    RoundedNum<Downward, N, M> {
    open spec fn obeys_mul_spec() -> bool {
        false
    }

    open spec fn mul_req(self, rhs: RoundedNum<Downward, N, M>) -> bool {
        true
    }

    open spec fn mul_spec(self, rhs: RoundedNum<Downward, N, M>) -> RoundedNum<Downward, N, M> {
        arbitrary()
    }
}

impl<N, M: RoundDiv<Num = N>> core::ops::Div<RoundedNum<Upward, N, M>> for
    RoundedNum<Upward, N, M> {
    type Output = RoundedNum<Upward, N, M>;

    fn div(self, rhs: RoundedNum<Upward, N, M>) -> (r: RoundedNum<Upward, N, M>)
        ensures
            call_ensures(M::div_up, (self.num(), rhs.num()), r.num()),
    {
        RoundedNum(M::div_up(self.0, rhs.0), PhantomData)
    }
}

impl<N, M: RoundDiv<Num = N>> vstd::std_specs::ops::DivSpecImpl<RoundedNum<Upward, N, M>> for
    RoundedNum<Upward, N, M> {
    open spec fn obeys_div_spec() -> bool {
        false
    }

    open spec fn div_req(self, rhs: RoundedNum<Upward, N, M>) -> bool {
        true
    }

    open spec fn div_spec(self, rhs: RoundedNum<Upward, N, M>) -> RoundedNum<Upward, N, M> {
        arbitrary()
    }
}

impl<N, M: RoundDiv<Num = N>> core::ops::Div<RoundedNum<Downward, N, M>> for
    RoundedNum<Downward, N, M> {
    type Output = RoundedNum<Downward, N, M>;

    fn div(self, rhs: RoundedNum<Downward, N, M>) -> (r: RoundedNum<Downward, N, M>)
        ensures
            call_ensures(M::div_down, (self.num(), rhs.num()), r.num()),
    {
        RoundedNum(M::div_down(self.0, rhs.0), PhantomData)
    }
}

impl<N, M: RoundDiv<Num = N>> vstd::std_specs::ops::DivSpecImpl<RoundedNum<Downward, N, M>> for
    RoundedNum<Downward, N, M> {
    open spec fn obeys_div_spec() -> bool {
        false
    }

    open spec fn div_req(self, rhs: RoundedNum<Downward, N, M>) -> bool {
        true
    }

    open spec fn div_spec(self, rhs: RoundedNum<Downward, N, M>) -> RoundedNum<Downward, N, M> {
        arbitrary()
    }
}

impl<N, M: RoundSqrt<Num = N>> RoundedNum<Upward, N, M> {
    /// The square root, rounded in this number's direction.
    pub fn sqrt(self) -> (r: RoundedNum<Upward, N, M>)
        ensures
            call_ensures(M::sqrt_up, (self.num(),), r.num()),
    {
        RoundedNum(M::sqrt_up(self.0), PhantomData)
    }
}

impl<N, M: RoundSqrt<Num = N>> RoundedNum<Downward, N, M> {
    /// The square root, rounded in this number's direction.
    pub fn sqrt(self) -> (r: RoundedNum<Downward, N, M>)
        ensures
            call_ensures(M::sqrt_down, (self.num(),), r.num()),
    {
        RoundedNum(M::sqrt_down(self.0), PhantomData)
    }
}

/// The elements of `v` in reverse order.
fn reversed<T>(v: Vec<T>) -> (r: Vec<T>)
    ensures
        r@.len() == v@.len(),
        forall|i: int| 0 <= i < v@.len() ==> #[trigger] r@[i] == v@[v@.len() - 1 - i],
{
    let ghost given = v@;
    let mut rest = v;
    let mut r: Vec<T> = Vec::new();
    while rest.len() > 0
        invariant
            rest@.len() + r@.len() == given.len(),
            forall|i: int| 0 <= i < rest@.len() ==> #[trigger] rest@[i] == given[i],
            forall|i: int|
                0 <= i < r@.len() ==> #[trigger] r@[i] == given[given.len() - 1 - i],
        decreases rest@.len(),
    {
        let x = rest.pop().unwrap();
        r.push(x);
    }
    r
}

/// Tags each number of `v` with a direction and a method, in order.
fn tag_all<Dir: Direction, N, M>(v: Vec<N>) -> (r: Vec<RoundedNum<Dir, N, M>>)
    ensures
        r@.len() == v@.len(),
        forall|i: int| 0 <= i < v@.len() ==> #[trigger] r@[i].num() == v@[i],
{
    let ghost given = v@;
    let mut rest = reversed(v);
    let mut r: Vec<RoundedNum<Dir, N, M>> = Vec::new();
    while rest.len() > 0
        invariant
            rest@.len() + r@.len() == given.len(),
            forall|i: int|
                0 <= i < rest@.len() ==> #[trigger] rest@[i] == given[given.len() - 1 - i],
            forall|i: int| 0 <= i < r@.len() ==> #[trigger] r@[i].num() == given[i],
        decreases rest@.len(),
    {
        let x = rest.pop().unwrap();
        r.push(RoundedNum::new(x));
    }
    r
}

/// The numbers carried by `v`, in order.
fn untag_all<Dir: Direction, N, M>(v: Vec<RoundedNum<Dir, N, M>>) -> (r: Vec<N>)
    ensures
        r@.len() == v@.len(),
        forall|i: int| 0 <= i < v@.len() ==> #[trigger] r@[i] == v@[i].num(),
{
    let ghost given = v@;
    let mut rest = reversed(v);
    let mut r: Vec<N> = Vec::new();
    while rest.len() > 0
        invariant
            rest@.len() + r@.len() == given.len(),
            forall|i: int|
                0 <= i < rest@.len() ==> #[trigger] rest@[i] == given[given.len() - 1 - i],
            forall|i: int| 0 <= i < r@.len() ==> #[trigger] r@[i] == given[i].num(),
        decreases rest@.len(),
    {
        let x = rest.pop().unwrap();
        r.push(x.extract());
    }
    r
}

/// Runs a whole computation under one rounding direction of one method.
pub trait RoundedSession: Clone + Sized {
    type Num: Clone;

    /// Tags every input with `Dir` and this method, hands them to `func`,
    /// and untags what it returns.
    fn calc_with<Dir: Direction, F>(input: Vec<Self::Num>, func: F) -> (r: Vec<Self::Num>) where
        F: FnOnce(Vec<RoundedNum<Dir, Self::Num, Self>>) -> Vec<RoundedNum<Dir, Self::Num, Self>>,

        requires
            forall|v: Vec<RoundedNum<Dir, Self::Num, Self>>| call_requires(func, (v,)),
        ensures
            exists|
                tagged: Vec<RoundedNum<Dir, Self::Num, Self>>,
                out: Vec<RoundedNum<Dir, Self::Num, Self>>,
            |
                {
                    &&& tagged@.len() == input@.len()
                    &&& forall|i: int|
                        0 <= i < input@.len() ==> #[trigger] tagged@[i].num() == input@[i]
                    &&& call_ensures(func, (tagged,), out)
                    &&& r@.len() == out@.len()
                    &&& forall|i: int| 0 <= i < out@.len() ==> #[trigger] r@[i] == out@[i].num()
                },
    {
        let tagged = tag_all(input);
        let out = func(tagged);
        untag_all(out)
    }
}

} // verus!
