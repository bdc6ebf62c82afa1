//! The two regimes of naming: names of abstract polytopes, which carry no
//! geometric data, and names of concrete polytopes, which carry centers and
//! compare them up to a tolerance.
use core::marker::PhantomData;
use crate::data::{AbsData, ConData, NameData, Point, Quadrilateral, Regular};
use vstd::prelude::*;

verus! {

/// The regime under which a name is read.
pub enum Regime {
    /// Names of abstract polytopes: every wrapper holds nothing.
    Abstract,
    /// Names of concrete polytopes: every wrapper holds a value, and two
    /// centers match when they lie strictly closer than `eps`.
    Concrete { eps: nat },
}

/// The numeric precision of a concrete regime. It fixes the tolerance within
/// which two centers are taken to be the same, in the unit of length of
/// [`Point`] coordinates: a million millionth of the unit of the embedding
/// space.
pub trait Precision: Sized {
    /// The tolerance of this precision.
    spec fn tolerance() -> nat;

    /// The tolerance of this precision.
    fn eps() -> (e: u64)
        ensures
            e == Self::tolerance(),
    ;
}

/// Single precision: the looser tolerance, a hundred thousandth of a unit.
#[derive(Clone, Copy, Debug)]
pub struct Single;

/// Double precision: the tighter tolerance, a thousand millionth of a unit.
#[derive(Clone, Copy, Debug)]
pub struct Double;

impl Precision for Single {
    open spec fn tolerance() -> nat {
        10_000_000
    }

    fn eps() -> (e: u64) {
        10_000_000
    }
}

impl Precision for Double {
    open spec fn tolerance() -> nat {
        1_000
    }

    fn eps() -> (e: u64) {
        1_000
    }
}

/// A type marker that tells whether a name describes an abstract or a
/// concrete polytope. It selects the wrapper of every payload of a name, so
/// that a name is never a mix of the two regimes.
pub trait NameType: Sized {
    /// Either `AbsData` or `ConData<Point>`.
    type DataPoint: NameData<Point>;

    /// Either `AbsData` or `ConData<Regular>`.
    type DataRegular: NameData<Regular>;

    /// Either `AbsData` or `ConData<Quadrilateral>`.
    type DataQuadrilateral: NameData<Quadrilateral>;

    /// The regime that the marker stands for.
    spec fn regime() -> Regime;

    /// Whether the marker is for abstract polytopes.
    fn is_abstract() -> (b: bool)
        ensures
            b == (Self::regime() is Abstract),
    ;

    /// The tolerance within which two centers match. The concrete regime
    /// has one; the abstract regime has none, since it holds no center to
    /// compare.
    fn eps() -> (e: Option<u64>)
        ensures
            match e {
                Some(v) => Self::regime() == (Regime::Concrete { eps: v as nat }),
                None => Self::regime() is Abstract,
            },
    ;

    /// A center is held exactly in the concrete regime.
    proof fn lemma_point(d: Self::DataPoint)
        ensures
            (d.value() is None) == (Self::regime() is Abstract),
    ;

    /// A regularity is held exactly in the concrete regime.
    proof fn lemma_regular(d: Self::DataRegular)
        ensures
            (d.value() is None) == (Self::regime() is Abstract),
    ;

    /// The kind of a quadrilateral is held exactly in the concrete regime.
    proof fn lemma_quadrilateral(d: Self::DataQuadrilateral)
        ensures
            (d.value() is None) == (Self::regime() is Abstract),
    ;
}

/// The marker for names of abstract polytopes.
#[derive(Clone, Copy, Debug)]
pub struct Abs;

impl NameType for Abs {
    type DataPoint = AbsData;

    type DataRegular = AbsData;

    type DataQuadrilateral = AbsData;

    open spec fn regime() -> Regime {
        Regime::Abstract
    }

    fn is_abstract() -> (b: bool) {
        true
    }

    fn eps() -> (e: Option<u64>) {
        None
    }

    proof fn lemma_point(d: Self::DataPoint) {
    }

    proof fn lemma_regular(d: Self::DataRegular) {
    }

    proof fn lemma_quadrilateral(d: Self::DataQuadrilateral) {
    }
}

/// The marker for names of concrete polytopes whose coordinates have the
/// precision `P`.
pub struct Con<P: Precision>(pub PhantomData<P>);

impl<P: Precision> NameType for Con<P> {
    type DataPoint = ConData<Point>;

    type DataRegular = ConData<Regular>;

    type DataQuadrilateral = ConData<Quadrilateral>;

    open spec fn regime() -> Regime {
        Regime::Concrete { eps: P::tolerance() }
    }

    fn is_abstract() -> (b: bool) {
        false
    }

    fn eps() -> (e: Option<u64>) {
        Some(P::eps())
    }

    proof fn lemma_point(d: Self::DataPoint) {
    }

    proof fn lemma_regular(d: Self::DataRegular) {
    }

    proof fn lemma_quadrilateral(d: Self::DataQuadrilateral) {
    }
}

} // verus!
