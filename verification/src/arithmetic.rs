//! The numbers that the crate computes with: balances, block numbers and identifiers.
use vstd::laws_cmp::obeys_cmp;
use vstd::prelude::*;
use vstd::std_specs::cmp::OrdSpec;

verus! {

/// A machine number that stands for a natural number of bounded size.
///
/// The contracts of this crate speak of the natural numbers; `as_nat` is what ties a machine
/// number to the natural number that it stands for.
pub trait SimpleArithmetic: Copy + Ord {
    /// The natural number that `self` stands for.
    spec fn as_nat(self) -> nat;

    /// The number that stands for `n`, where `n` is no larger than `max_nat()`.
    spec fn from_nat(n: nat) -> Self;

    /// The largest natural number that the type can stand for.
    spec fn max_nat() -> nat;

    /// A number stands for exactly one natural number, and is the only one to do so.
    proof fn lemma_represents(x: Self)
        ensures
            x.as_nat() <= Self::max_nat(),
            Self::from_nat(x.as_nat()) == x,
    ;

    /// Every natural number up to the largest is stood for.
    proof fn lemma_representable(n: nat)
        requires
            n <= Self::max_nat(),
        ensures
            Self::from_nat(n).as_nat() == n,
    ;

    /// `Ord` orders the numbers as the natural numbers that they stand for.
    proof fn lemma_ordered()
        ensures
            obeys_cmp::<Self>(),
            forall|a: Self, b: Self|
                #[trigger] a.cmp_spec(&b) is Less <==> a.as_nat() < b.as_nat(),
    ;

    /// The number nought.
    fn zero() -> (r: Self)
        ensures
            r.as_nat() == 0,
    ;

    /// The number one.
    fn one() -> (r: Self)
        ensures
            r.as_nat() == 1,
    ;

    /// Whether the number is nought.
    fn is_zero(self) -> (r: bool)
        ensures
            r == (self.as_nat() == 0),
    ;

    /// Whether the number is smaller than `other`.
    fn less_than(self, other: Self) -> (r: bool)
        ensures
            r == (self.as_nat() < other.as_nat()),
    ;

    /// The sum of two numbers.
    fn plus(self, other: Self) -> (r: Self)
        requires
            self.as_nat() + other.as_nat() <= Self::max_nat(),
        ensures
            r.as_nat() == self.as_nat() + other.as_nat(),
    ;

    /// The difference of two numbers.
    fn minus(self, other: Self) -> (r: Self)
        requires
            other.as_nat() <= self.as_nat(),
        ensures
            r.as_nat() == self.as_nat() - other.as_nat(),
    ;
}

impl SimpleArithmetic for u32 {
    open spec fn as_nat(self) -> nat {
        self as nat
    }

    open spec fn from_nat(n: nat) -> Self {
        n as u32
    }

    open spec fn max_nat() -> nat {
        u32::MAX as nat
    }

    proof fn lemma_represents(x: Self) {
    }

    proof fn lemma_representable(n: nat) {
    }

    proof fn lemma_ordered() {
        broadcast use vstd::laws_cmp::group_laws_cmp;

    }

    fn zero() -> (r: Self) {
        0
    }

    fn one() -> (r: Self) {
        1
    }

    fn is_zero(self) -> (r: bool) {
        self == 0
    }

    fn less_than(self, other: Self) -> (r: bool) {
        self < other
    }

    fn plus(self, other: Self) -> (r: Self) {
        self + other
    }

    fn minus(self, other: Self) -> (r: Self) {
        self - other
    }
}

impl SimpleArithmetic for u64 {
    open spec fn as_nat(self) -> nat {
        self as nat
    }

    open spec fn from_nat(n: nat) -> Self {
        n as u64
    }

    open spec fn max_nat() -> nat {
        u64::MAX as nat
    }

    proof fn lemma_represents(x: Self) {
    }

    proof fn lemma_representable(n: nat) {
    }

    proof fn lemma_ordered() {
        broadcast use vstd::laws_cmp::group_laws_cmp;

    }

    fn zero() -> (r: Self) {
        0
    }

    fn one() -> (r: Self) {
        1
    }

    fn is_zero(self) -> (r: bool) {
        self == 0
    }

    fn less_than(self, other: Self) -> (r: bool) {
        self < other
    }

    fn plus(self, other: Self) -> (r: Self) {
        self + other
    }

    fn minus(self, other: Self) -> (r: Self) {
        self - other
    }
}

impl SimpleArithmetic for u128 {
    open spec fn as_nat(self) -> nat {
        self as nat
    }

    open spec fn from_nat(n: nat) -> Self {
        n as u128
    }

    open spec fn max_nat() -> nat {
        u128::MAX as nat
    }

    proof fn lemma_represents(x: Self) {
    }

    proof fn lemma_representable(n: nat) {
    }

    proof fn lemma_ordered() {
        broadcast use vstd::laws_cmp::group_laws_cmp;

    }

    fn zero() -> (r: Self) {
        0
    }

    fn one() -> (r: Self) {
        1
    }

    fn is_zero(self) -> (r: bool) {
        self == 0
    }

    fn less_than(self, other: Self) -> (r: bool) {
        self < other
    }

    fn plus(self, other: Self) -> (r: Self) {
        self + other
    }

    fn minus(self, other: Self) -> (r: Self) {
        self - other
    }
}

} // verus!
