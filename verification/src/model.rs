//! The mathematical model of a name: a tree whose payloads are optional
//! values, whose ranks and counts are natural numbers and whose lists are
//! sequences. Every contract of the library is stated over this model.
use crate::data::{Quadrilateral, RegularView};
use crate::regime::Regime;
use vstd::arithmetic::power2::pow2;
use vstd::prelude::*;

verus! {

/// The four products of polytopes that a name can record.
#[derive(Clone, Copy, Debug, PartialEq, Eq, Structural)]
pub enum Product {
    /// The pyramid product, whose unit is the point.
    Pyramid,
    /// The prism product, whose unit is the dyad.
    Prism,
    /// The tegum product, whose unit is the dyad.
    Tegum,
    /// The comb product.
    Comb,
}

/// The model of a name. A payload is `None` in the abstract regime and
/// `Some` in the concrete one. Every `rank` field counts from the nullitope
/// at zero, so that it is one more than the rank of the shape it describes.
pub enum NameView {
    /// The nullitope, of rank -1.
    Nullitope,
    /// The point, of rank 0.
    Point,
    /// The dyad, of rank 1.
    Dyad,
    /// A triangle.
    Triangle { regular: Option<RegularView> },
    /// A quadrilateral that isn't irregular.
    Quadrilateral { quad: Option<Quadrilateral> },
    /// A polygon of `n` sides.
    Polygon { regular: Option<RegularView>, n: nat },
    /// A pyramid, prism or tegum based on one polytope.
    Single(Product, Box<NameView>),
    /// A product of several polytopes.
    Multi(Product, Seq<NameView>),
    /// An antiprism based on a polytope.
    Antiprism { base: Box<NameView> },
    /// An antitegum based on a polytope, dualized around `center`.
    Antitegum { base: Box<NameView>, center: Option<Seq<i64>> },
    /// The Petrial of a polytope.
    Petrial { base: Box<NameView> },
    /// The dual of a polytope around `center`.
    Dual { base: Box<NameView>, center: Option<Seq<i64>> },
    /// A ditope based on a polytope.
    Ditope { base: Box<NameView>, rank: nat },
    /// A hosotope based on a polytope.
    Hosotope { base: Box<NameView>, rank: nat },
    /// A simplex.
    Simplex { regular: Option<RegularView>, rank: nat },
    /// A cuboid: the block of rank 3.
    Cuboid { regular: Option<RegularView> },
    /// A block of rank at least 4.
    Hyperblock { regular: Option<RegularView>, rank: nat },
    /// An orthoplex.
    Orthoplex { regular: Option<RegularView>, rank: nat },
    /// A polytope known only by its facet count and rank.
    Generic { facet_count: nat, rank: nat },
    /// A smaller variant of a polytope.
    Small(Box<NameView>),
    /// A greater variant of a polytope.
    Great(Box<NameView>),
    /// A stellation of a polytope.
    Stellated(Box<NameView>),
    /// A compound of polytopes, each with its multiplicity.
    Compound(Seq<(nat, NameView)>),
}

/// The nesting depth of a name: 0 for a leaf.
pub open spec fn height(n: NameView) -> nat
    decreases n,
{
    match n {
        NameView::Single(_, base) => 1 + height(*base),
        NameView::Multi(_, bases) => 1 + seq_height(bases),
        NameView::Antiprism { base } => 1 + height(*base),
        NameView::Antitegum { base, .. } => 1 + height(*base),
        NameView::Petrial { base } => 1 + height(*base),
        NameView::Dual { base, .. } => 1 + height(*base),
        NameView::Ditope { base, .. } => 1 + height(*base),
        NameView::Hosotope { base, .. } => 1 + height(*base),
        NameView::Small(base) => 1 + height(*base),
        NameView::Great(base) => 1 + height(*base),
        NameView::Stellated(base) => 1 + height(*base),
        NameView::Compound(parts) => 1 + parts_height(parts),
        _ => 0,
    }
}

/// The greatest nesting depth among `bases`: 0 for an empty list.
pub open spec fn seq_height(bases: Seq<NameView>) -> nat
    decreases bases,
{
    if bases.len() == 0 {
        0
    } else {
        let h = seq_height(bases.drop_last());
        let l = height(bases.last());
        if h >= l {
            h
        } else {
            l
        }
    }
}

/// The greatest nesting depth among the names of `parts`.
pub open spec fn parts_height(parts: Seq<(nat, NameView)>) -> nat
    decreases parts,
{
    if parts.len() == 0 {
        0
    } else {
        let h = parts_height(parts.drop_last());
        let l = height(parts.last().1);
        if h >= l {
            h
        } else {
            l
        }
    }
}

/// The rank of the polytope that a name describes, as far as the name tells
/// it: -1 for the nullitope, and `None` where it cannot be derived.
pub open spec fn rank_of(n: NameView) -> Option<int>
    decreases n,
{
    match n {
        NameView::Nullitope => Some(-1),
        NameView::Point => Some(0),
        NameView::Dyad => Some(1),
        NameView::Triangle { .. } => Some(2),
        NameView::Quadrilateral { .. } => Some(2),
        NameView::Polygon { .. } => Some(2),
        NameView::Single(_, base) => match rank_of(*base) {
            Some(r) => Some(r + 1),
            None => None,
        },
        NameView::Multi(kind, bases) => match rank_units(bases) {
            Some(u) => match kind {
                Product::Pyramid => Some(u - 1),
                Product::Comb => Some(u - 1),
                Product::Prism => Some(u - bases.len()),
                Product::Tegum => Some(u - bases.len()),
            },
            None => None,
        },
        NameView::Antiprism { base } => match rank_of(*base) {
            Some(r) => Some(r + 1),
            None => None,
        },
        NameView::Antitegum { base, .. } => match rank_of(*base) {
            Some(r) => Some(r + 1),
            None => None,
        },
        NameView::Petrial { base } => rank_of(*base),
        NameView::Dual { base, .. } => rank_of(*base),
        NameView::Ditope { rank, .. } => Some(rank - 1),
        NameView::Hosotope { rank, .. } => Some(rank - 1),
        NameView::Simplex { rank, .. } => Some(rank - 1),
        NameView::Cuboid { .. } => Some(3),
        NameView::Hyperblock { rank, .. } => Some(rank - 1),
        NameView::Orthoplex { rank, .. } => Some(rank - 1),
        NameView::Generic { rank, .. } => Some(rank - 1),
        NameView::Small(base) => rank_of(*base),
        NameView::Great(base) => rank_of(*base),
        NameView::Stellated(base) => rank_of(*base),
        NameView::Compound(parts) => if parts.len() > 0 {
            rank_of(parts[0].1)
        } else {
            None
        },
    }
}

/// The sum over `bases` of the rank plus one, or `None` where some rank is
/// unknown.
pub open spec fn rank_units(bases: Seq<NameView>) -> Option<int>
    decreases bases,
{
    if bases.len() == 0 {
        Some(0)
    } else {
        match (rank_units(bases.drop_last()), rank_of(bases.last())) {
            (Some(u), Some(r)) => Some(u + r + 1),
            _ => None,
        }
    }
}

/// The number of facets of the polytope that a name describes, as far as the
/// name tells it. The name of a dual does not tell it.
pub open spec fn facet_count_of(n: NameView) -> Option<nat>
    decreases n,
{
    match n {
        NameView::Nullitope => Some(0),
        NameView::Point => Some(1),
        NameView::Dyad => Some(2),
        NameView::Triangle { .. } => Some(3),
        NameView::Quadrilateral { .. } => Some(4),
        NameView::Polygon { n, .. } => Some(n),
        NameView::Generic { facet_count, .. } => Some(facet_count),
        NameView::Simplex { rank, .. } => Some(rank),
        NameView::Cuboid { .. } => Some(6),
        NameView::Hyperblock { rank, .. } => if rank >= 1 {
            Some((2 * (rank - 1)) as nat)
        } else {
            Some(0)
        },
        NameView::Orthoplex { rank, .. } => if rank >= 1 {
            Some(pow2((rank - 1) as nat))
        } else {
            Some(1)
        },
        NameView::Single(kind, base) => match facet_count_of(*base) {
            Some(f) => match kind {
                Product::Pyramid => Some(f + 1),
                Product::Prism => Some(2 * (f + 1)),
                Product::Tegum => Some(2 * f),
                Product::Comb => None,
            },
            None => None,
        },
        NameView::Multi(kind, bases) => match kind {
            Product::Pyramid => facet_product(bases),
            Product::Tegum => facet_product(bases),
            Product::Prism => facet_sum(bases),
            Product::Comb => facet_sum(bases),
        },
        NameView::Compound(parts) => weighted_facets(parts),
        _ => None,
    }
}

/// The product of the facet counts of `bases`, or `None` where one is
/// unknown.
pub open spec fn facet_product(bases: Seq<NameView>) -> Option<nat>
    decreases bases,
{
    if bases.len() == 0 {
        Some(1)
    } else {
        match (facet_product(bases.drop_last()), facet_count_of(bases.last())) {
            (Some(p), Some(f)) => Some(p * f),
            _ => None,
        }
    }
}

/// The sum of the facet counts of `bases`, or `None` where one is unknown.
pub open spec fn facet_sum(bases: Seq<NameView>) -> Option<nat>
    decreases bases,
{
    if bases.len() == 0 {
        Some(0)
    } else {
        match (facet_sum(bases.drop_last()), facet_count_of(bases.last())) {
            (Some(s), Some(f)) => Some(s + f),
            _ => None,
        }
    }
}

/// The sum of the facet counts of `parts`, each taken by its multiplicity,
/// or `None` where one is unknown.
pub open spec fn weighted_facets(parts: Seq<(nat, NameView)>) -> Option<nat>
    decreases parts,
{
    if parts.len() == 0 {
        Some(0)
    } else {
        match (weighted_facets(parts.drop_last()), facet_count_of(parts.last().1)) {
            (Some(s), Some(f)) => Some(s + parts.last().0 * f),
            _ => None,
        }
    }
}

/// Whether `base` is a product of the given kind.
pub open spec fn is_multi(kind: Product, base: NameView) -> bool {
    base matches NameView::Multi(k, _) && k == kind
}

/// Whether a name holds what its own variant demands, whatever its children
/// are.
pub open spec fn node_valid(n: NameView) -> bool {
    match n {
        NameView::Polygon { regular, n } => n != 3 && !(n == 4 && regular != Some(
            RegularView::No,
        )),
        NameView::Simplex { rank, .. } => rank >= 4,
        NameView::Orthoplex { rank, .. } => rank >= 4,
        NameView::Hyperblock { rank, .. } => rank >= 5,
        NameView::Generic { facet_count, rank } => facet_count >= 2 && 4 <= rank <= 21,
        NameView::Multi(kind, bases) => bases.len() >= 2 && forall|i: int|
            0 <= i < bases.len() ==> !is_multi(kind, #[trigger] bases[i]),
        NameView::Compound(parts) => {
            &&& parts.len() >= 1
            &&& forall|i: int| 0 <= i < parts.len() ==> !((#[trigger] parts[i]).1 is Compound)
            &&& forall|i: int, j: int|
                0 <= i < j < parts.len() ==> (#[trigger] parts[i]).1 != (#[trigger] parts[j]).1
        },
        _ => true,
    }
}

/// Whether a name and every name below it hold what their variants demand.
pub open spec fn valid(n: NameView) -> bool
    decreases n,
{
    &&& node_valid(n)
    &&& match n {
        NameView::Single(_, base) => valid(*base),
        NameView::Multi(_, bases) => forall|i: int|
            0 <= i < bases.len() ==> valid(#[trigger] bases[i]),
        NameView::Antiprism { base } => valid(*base),
        NameView::Antitegum { base, .. } => valid(*base),
        NameView::Petrial { base } => valid(*base),
        NameView::Dual { base, .. } => valid(*base),
        NameView::Ditope { base, .. } => valid(*base),
        NameView::Hosotope { base, .. } => valid(*base),
        NameView::Small(base) => valid(*base),
        NameView::Great(base) => valid(*base),
        NameView::Stellated(base) => valid(*base),
        NameView::Compound(parts) => forall|i: int|
            0 <= i < parts.len() ==> valid((#[trigger] parts[i]).1),
        _ => true,
    }
}

/// Whether a payload is held exactly where the regime holds payloads.
pub open spec fn held<A>(d: Option<A>, g: Regime) -> bool {
    (d is None) == (g is Abstract)
}

/// Whether every payload of a name is held exactly where the regime holds
/// payloads: a name is never a mix of the two regimes.
pub open spec fn in_regime(n: NameView, g: Regime) -> bool
    decreases n,
{
    match n {
        NameView::Triangle { regular } => held(regular, g),
        NameView::Quadrilateral { quad } => held(quad, g),
        NameView::Polygon { regular, .. } => held(regular, g),
        NameView::Single(_, base) => in_regime(*base, g),
        NameView::Multi(_, bases) => forall|i: int|
            0 <= i < bases.len() ==> in_regime(#[trigger] bases[i], g),
        NameView::Antiprism { base } => in_regime(*base, g),
        NameView::Antitegum { base, center } => held(center, g) && in_regime(*base, g),
        NameView::Petrial { base } => in_regime(*base, g),
        NameView::Dual { base, center } => held(center, g) && in_regime(*base, g),
        NameView::Ditope { base, .. } => in_regime(*base, g),
        NameView::Hosotope { base, .. } => in_regime(*base, g),
        NameView::Simplex { regular, .. } => held(regular, g),
        NameView::Cuboid { regular } => held(regular, g),
        NameView::Hyperblock { regular, .. } => held(regular, g),
        NameView::Orthoplex { regular, .. } => held(regular, g),
        NameView::Small(base) => in_regime(*base, g),
        NameView::Great(base) => in_regime(*base, g),
        NameView::Stellated(base) => in_regime(*base, g),
        NameView::Compound(parts) => forall|i: int|
            0 <= i < parts.len() ==> in_regime((#[trigger] parts[i]).1, g),
        _ => true,
    }
}

/// Whether every number in a name fits the machine's unsigned word, so that
/// the name can be held in memory.
pub open spec fn fits(n: NameView) -> bool
    decreases n,
{
    match n {
        NameView::Polygon { n, .. } => n <= usize::MAX,
        NameView::Single(_, base) => fits(*base),
        NameView::Multi(_, bases) => forall|i: int|
            0 <= i < bases.len() ==> fits(#[trigger] bases[i]),
        NameView::Antiprism { base } => fits(*base),
        NameView::Antitegum { base, .. } => fits(*base),
        NameView::Petrial { base } => fits(*base),
        NameView::Dual { base, .. } => fits(*base),
        NameView::Ditope { base, rank } => rank <= usize::MAX && fits(*base),
        NameView::Hosotope { base, rank } => rank <= usize::MAX && fits(*base),
        NameView::Simplex { rank, .. } => rank <= usize::MAX,
        NameView::Hyperblock { rank, .. } => rank <= usize::MAX,
        NameView::Orthoplex { rank, .. } => rank <= usize::MAX,
        NameView::Generic { facet_count, rank } => facet_count <= usize::MAX && rank
            <= usize::MAX,
        NameView::Small(base) => fits(*base),
        NameView::Great(base) => fits(*base),
        NameView::Stellated(base) => fits(*base),
        NameView::Compound(parts) => forall|i: int|
            0 <= i < parts.len() ==> (#[trigger] parts[i]).0 <= usize::MAX && fits(parts[i].1),
        _ => true,
    }
}

/// Whether the rank of a name fits the machine's word where it is known,
/// and so does the rank of every name below that it is derived from.
pub open spec fn ranked(n: NameView) -> bool
    decreases n,
{
    &&& rank_of(n) matches Some(r) ==> isize::MIN <= r <= isize::MAX
    &&& match n {
        NameView::Single(_, base) => ranked(*base),
        NameView::Multi(_, bases) => forall|i: int|
            0 <= i < bases.len() ==> ranked(#[trigger] bases[i]),
        NameView::Antiprism { base } => ranked(*base),
        NameView::Antitegum { base, .. } => ranked(*base),
        NameView::Petrial { base } => ranked(*base),
        NameView::Dual { base, .. } => ranked(*base),
        NameView::Small(base) => ranked(*base),
        NameView::Great(base) => ranked(*base),
        NameView::Stellated(base) => ranked(*base),
        NameView::Compound(parts) => parts.len() > 0 ==> ranked(parts[0].1),
        _ => true,
    }
}

/// Whether the facet count of a name fits the machine's word where it is
/// known, and so does the facet count of every name below that it is
/// derived from.
pub open spec fn counted(n: NameView) -> bool
    decreases n,
{
    &&& facet_count_of(n) matches Some(f) ==> f <= usize::MAX
    &&& match n {
        NameView::Single(kind, base) => kind != Product::Comb ==> counted(*base),
        NameView::Multi(_, bases) => forall|i: int|
            0 <= i < bases.len() ==> counted(#[trigger] bases[i]),
        NameView::Compound(parts) => forall|i: int|
            0 <= i < parts.len() ==> counted((#[trigger] parts[i]).1),
        _ => true,
    }
}

/// Whether the rank and the facet count of a name can be told within the
/// limits of the machine.
pub open spec fn measurable(n: NameView) -> bool {
    ranked(n) && counted(n)
}

} // verus!
