//! Arithmetic on the elements of tensors.
//!
//! The numeric code of this crate is written once, over [`Scalar`], and its
//! contracts say which operations are applied to which elements and in which
//! order. That is what decides a floating-point result, and it is all that can be
//! said of one without modelling rounding. [`Term`] is the scalar whose value is
//! that record itself.

use vstd::prelude::*;

verus! {

/// A number that the kernels write down.
#[derive(Clone, Copy, Debug, PartialEq, Eq, Structural)]
pub enum Constant {
    /// 0
    Zero,
    /// 1
    One,
    /// 2
    Two,
    /// 1/2
    Half,
    /// -1
    MinusOne,
    /// The square root of 2/pi.
    GeluScale,
    /// 0.044715
    GeluCoefficient,
    /// -1.0e38, the score of a masked position.
    Masked,
    /// Negative infinity.
    NegInfinity,
}

/// The arithmetic of a tensor's elements.
///
/// Each operation has a specification function that names its result. A type that leaves
/// one out claims that the operation gives the same value, of which nothing else is known,
/// for all operands.
pub trait Scalar: Sized {
    open spec fn constant_value(c: Constant) -> Self {
        arbitrary()
    }

    /// The number of things that were counted.
    open spec fn count_value(n: nat) -> Self {
        arbitrary()
    }

    /// The element that a 32-bit pattern in memory stands for.
    open spec fn decoded(bits: u32) -> Self {
        arbitrary()
    }

    /// The 32-bit pattern of an element.
    open spec fn encoded(x: Self) -> u32 {
        arbitrary()
    }

    open spec fn sum(a: Self, b: Self) -> Self {
        arbitrary()
    }

    open spec fn difference(a: Self, b: Self) -> Self {
        arbitrary()
    }

    open spec fn product(a: Self, b: Self) -> Self {
        arbitrary()
    }

    open spec fn quotient(a: Self, b: Self) -> Self {
        arbitrary()
    }

    /// `a * b + c` with one rounding.
    open spec fn fused_value(a: Self, b: Self, c: Self) -> Self {
        arbitrary()
    }

    open spec fn root(a: Self) -> Self {
        arbitrary()
    }

    open spec fn exponential(a: Self) -> Self {
        arbitrary()
    }

    open spec fn hyperbolic_tangent(a: Self) -> Self {
        arbitrary()
    }

    open spec fn maximum(a: Self, b: Self) -> Self {
        arbitrary()
    }

    /// Where an element stands in the order, or `None` for one that compares with
    /// nothing.
    open spec fn rank(x: Self) -> Option<int> {
        arbitrary()
    }

    fn constant(c: Constant) -> (r: Self)
        ensures
            r == Self::constant_value(c),
    ;

    fn from_count(n: usize) -> (r: Self)
        ensures
            r == Self::count_value(n as nat),
    ;

    fn from_bits(bits: u32) -> (r: Self)
        ensures
            r == Self::decoded(bits),
    ;

    fn to_bits(&self) -> (r: u32)
        ensures
            r == Self::encoded(*self),
    ;

    fn dup(&self) -> (r: Self)
        ensures
            r == *self,
    ;

    fn plus(&self, other: &Self) -> (r: Self)
        ensures
            r == Self::sum(*self, *other),
    ;

    fn minus(&self, other: &Self) -> (r: Self)
        ensures
            r == Self::difference(*self, *other),
    ;

    fn times(&self, other: &Self) -> (r: Self)
        ensures
            r == Self::product(*self, *other),
    ;

    fn over(&self, other: &Self) -> (r: Self)
        ensures
            r == Self::quotient(*self, *other),
    ;

    fn fused(&self, factor: &Self, addend: &Self) -> (r: Self)
        ensures
            r == Self::fused_value(*self, *factor, *addend),
    ;

    fn sqrt(&self) -> (r: Self)
        ensures
            r == Self::root(*self),
    ;

    fn exp(&self) -> (r: Self)
        ensures
            r == Self::exponential(*self),
    ;

    fn tanh(&self) -> (r: Self)
        ensures
            r == Self::hyperbolic_tangent(*self),
    ;

    fn larger(&self, other: &Self) -> (r: Self)
        ensures
            r == Self::maximum(*self, *other),
    ;

    /// Whether this element is greater than the other. It is not if either of them
    /// compares with nothing.
    fn exceeds(&self, other: &Self) -> (r: bool)
        ensures
            r == rank_above(Self::rank(*self), Self::rank(*other)),
    ;
}

/// Both ranks exist, and the first is the greater.
pub open spec fn rank_above(a: Option<int>, b: Option<int>) -> bool {
    match (a, b) {
        (Some(x), Some(y)) => x > y,
        _ => false,
    }
}

/// `a` is greater than `b`.
pub open spec fn above<S: Scalar>(a: S, b: S) -> bool {
    rank_above(S::rank(a), S::rank(b))
}

pub open spec fn zero<S: Scalar>() -> S {
    S::constant_value(Constant::Zero)
}

pub open spec fn one<S: Scalar>() -> S {
    S::constant_value(Constant::One)
}

/// The record of how an element was computed.
#[derive(Debug, PartialEq, Eq)]
pub enum Term {
    Constant(Constant),
    Count(usize),
    /// An element as it lay in memory. Such elements are ordered by their bits, and
    /// nothing else is.
    Bits(u32),
    Sum(Box<Term>, Box<Term>),
    Difference(Box<Term>, Box<Term>),
    Product(Box<Term>, Box<Term>),
    Quotient(Box<Term>, Box<Term>),
    Fused(Box<Term>, Box<Term>, Box<Term>),
    Sqrt(Box<Term>),
    Exp(Box<Term>),
    Tanh(Box<Term>),
    Larger(Box<Term>, Box<Term>),
}

impl Term {
    /// A copy of the record.
    pub fn copy(&self) -> (r: Term)
        ensures
            r == *self,
        decreases self,
    {
        match self {
            Term::Constant(c) => Term::Constant(*c),
            Term::Count(n) => Term::Count(*n),
            Term::Bits(b) => Term::Bits(*b),
            Term::Sum(a, b) => Term::Sum(Box::new(a.copy()), Box::new(b.copy())),
            Term::Difference(a, b) => Term::Difference(Box::new(a.copy()), Box::new(b.copy())),
            Term::Product(a, b) => Term::Product(Box::new(a.copy()), Box::new(b.copy())),
            Term::Quotient(a, b) => Term::Quotient(Box::new(a.copy()), Box::new(b.copy())),
            Term::Fused(a, b, c) => Term::Fused(
                Box::new(a.copy()),
                Box::new(b.copy()),
                Box::new(c.copy()),
            ),
            Term::Sqrt(a) => Term::Sqrt(Box::new(a.copy())),
            Term::Exp(a) => Term::Exp(Box::new(a.copy())),
            Term::Tanh(a) => Term::Tanh(Box::new(a.copy())),
            Term::Larger(a, b) => Term::Larger(Box::new(a.copy()), Box::new(b.copy())),
        }
    }
}

impl Scalar for Term {
    open spec fn constant_value(c: Constant) -> Term {
        Term::Constant(c)
    }

    open spec fn count_value(n: nat) -> Term {
        Term::Count(n as usize)
    }

    open spec fn decoded(bits: u32) -> Term {
        Term::Bits(bits)
    }

    /// A computed element has no pattern of its own.
    open spec fn encoded(x: Term) -> u32 {
        match x {
            Term::Bits(b) => b,
            _ => 0,
        }
    }

    open spec fn sum(a: Term, b: Term) -> Term {
        Term::Sum(Box::new(a), Box::new(b))
    }

    open spec fn difference(a: Term, b: Term) -> Term {
        Term::Difference(Box::new(a), Box::new(b))
    }

    open spec fn product(a: Term, b: Term) -> Term {
        Term::Product(Box::new(a), Box::new(b))
    }

    open spec fn quotient(a: Term, b: Term) -> Term {
        Term::Quotient(Box::new(a), Box::new(b))
    }

    open spec fn fused_value(a: Term, b: Term, c: Term) -> Term {
        Term::Fused(Box::new(a), Box::new(b), Box::new(c))
    }

    open spec fn root(a: Term) -> Term {
        Term::Sqrt(Box::new(a))
    }

    open spec fn exponential(a: Term) -> Term {
        Term::Exp(Box::new(a))
    }

    open spec fn hyperbolic_tangent(a: Term) -> Term {
        Term::Tanh(Box::new(a))
    }

    open spec fn maximum(a: Term, b: Term) -> Term {
        Term::Larger(Box::new(a), Box::new(b))
    }

    open spec fn rank(x: Term) -> Option<int> {
        match x {
            Term::Bits(b) => Some(b as int),
            _ => None,
        }
    }

    fn constant(c: Constant) -> (r: Term) {
        Term::Constant(c)
    }

    fn from_count(n: usize) -> (r: Term) {
        Term::Count(n)
    }

    fn from_bits(bits: u32) -> (r: Term) {
        Term::Bits(bits)
    }

    fn to_bits(&self) -> (r: u32) {
        match self {
            Term::Bits(b) => *b,
            _ => 0,
        }
    }

    fn dup(&self) -> (r: Term) {
        self.copy()
    }

    fn plus(&self, other: &Term) -> (r: Term) {
        Term::Sum(Box::new(self.copy()), Box::new(other.copy()))
    }

    fn minus(&self, other: &Term) -> (r: Term) {
        Term::Difference(Box::new(self.copy()), Box::new(other.copy()))
    }

    fn times(&self, other: &Term) -> (r: Term) {
        Term::Product(Box::new(self.copy()), Box::new(other.copy()))
    }

    fn over(&self, other: &Term) -> (r: Term) {
        Term::Quotient(Box::new(self.copy()), Box::new(other.copy()))
    }

    fn fused(&self, factor: &Term, addend: &Term) -> (r: Term) {
        Term::Fused(Box::new(self.copy()), Box::new(factor.copy()), Box::new(addend.copy()))
    }

    fn sqrt(&self) -> (r: Term) {
        Term::Sqrt(Box::new(self.copy()))
    }

    fn exp(&self) -> (r: Term) {
        Term::Exp(Box::new(self.copy()))
    }

    fn tanh(&self) -> (r: Term) {
        Term::Tanh(Box::new(self.copy()))
    }

    fn larger(&self, other: &Term) -> (r: Term) {
        Term::Larger(Box::new(self.copy()), Box::new(other.copy()))
    }

    fn exceeds(&self, other: &Term) -> (r: bool) {
        match (self, other) {
            (Term::Bits(a), Term::Bits(b)) => *a > *b,
            _ => false,
        }
    }
}

} // verus!
