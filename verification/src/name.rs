//! The name of a polytope: a syntax tree that does not depend on any
//! language, and its view as a [`NameView`].
use crate::data::{NameData, Point, Quadrilateral};
use crate::model::{fits, in_regime, NameView, Product};
use crate::regime::NameType;
use vstd::prelude::*;

verus! {

/// A language-independent representation of a polytope name, in a syntax
/// tree-like structure.
///
/// Many of the variants are subject to invariants, which
/// [`Name::is_valid`] checks. The methods named after the variants
/// establish them; a name that is built variant by variant has to be
/// checked by its author.
///
/// Every `rank` field counts from the nullitope at zero, so that it is one
/// more than the rank of the shape it describes.
pub enum Name<T: NameType> {
    /// A nullitope.
    Nullitope,
    /// A point.
    Point,
    /// A dyad.
    Dyad,
    /// A triangle.
    Triangle {
        /// Whether the triangle is regular, and its center if it is.
        regular: T::DataRegular,
    },
    /// A quadrilateral that isn't irregular.
    Quadrilateral {
        /// The type of quadrilateral.
        quad: T::DataQuadrilateral,
    },
    /// A polygon that is neither a triangle nor a regular quadrilateral.
    Polygon {
        /// Whether the polygon is regular, and its center if it is.
        regular: T::DataRegular,
        /// The facet count of the polygon.
        n: usize,
    },
    /// A pyramid based on some polytope.
    Pyramid(Box<Name<T>>),
    /// A prism based on some polytope.
    Prism(Box<Name<T>>),
    /// A tegum based on some polytope.
    Tegum(Box<Name<T>>),
    /// A multipyramid based on a list of polytopes. The list must contain
    /// at least two elements, none of them a multipyramid.
    Multipyramid(Vec<Name<T>>),
    /// A multiprism based on a list of polytopes. The list must contain at
    /// least two elements, none of them a multiprism.
    Multiprism(Vec<Name<T>>),
    /// A multitegum based on a list of polytopes. The list must contain at
    /// least two elements, none of them a multitegum.
    Multitegum(Vec<Name<T>>),
    /// A multicomb based on a list of polytopes. The list must contain at
    /// least two elements, none of them a multicomb.
    Multicomb(Vec<Name<T>>),
    /// An antiprism based on a polytope.
    Antiprism {
        /// The polytope the antiprism is based upon.
        base: Box<Name<T>>,
    },
    /// An antitegum based on a polytope.
    Antitegum {
        /// The polytope the antitegum is based upon.
        base: Box<Name<T>>,
        /// The center used for dualizing.
        center: T::DataPoint,
    },
    /// The Petrial of a polyhedron.
    Petrial {
        /// The polytope the Petrial is based upon.
        base: Box<Name<T>>,
    },
    /// The dual of a specified polytope.
    Dual {
        /// The polytope the dual is based upon.
        base: Box<Name<T>>,
        /// The center used for dualizing.
        center: T::DataPoint,
    },
    /// A ditope based on a specified polytope.
    Ditope {
        /// The polytope the ditope is based upon.
        base: Box<Name<T>>,
        /// The rank of the ditope, counted from the nullitope at zero.
        rank: usize,
    },
    /// A hosotope based on a specified polytope.
    Hosotope {
        /// The polytope the hosotope is based upon.
        base: Box<Name<T>>,
        /// The rank of the hosotope, counted from the nullitope at zero.
        rank: usize,
    },
    /// A simplex, from the tetrahedron upwards.
    Simplex {
        /// Whether the simplex is regular, and its center if it is.
        regular: T::DataRegular,
        /// The rank of the simplex, counted from the nullitope at zero: at
        /// least 4.
        rank: usize,
    },
    /// A cuboid.
    Cuboid {
        /// Whether the cuboid is regular, and its center if it is.
        regular: T::DataRegular,
    },
    /// A hyperblock, from the tesseract upwards.
    Hyperblock {
        /// Whether the hyperblock is regular, and its center if it is.
        regular: T::DataRegular,
        /// The rank of the hyperblock, counted from the nullitope at zero:
        /// at least 5.
        rank: usize,
    },
    /// An orthoplex, from the octahedron upwards.
    Orthoplex {
        /// Whether the orthoplex is regular, and its center if it is.
        regular: T::DataRegular,
        /// The rank of the orthoplex, counted from the nullitope at zero:
        /// at least 4.
        rank: usize,
    },
    /// A polytope with a given facet count and rank. The facet count must
    /// be at least 2, and the rank between 4 and 21.
    Generic {
        /// The number of facets of the polytope.
        facet_count: usize,
        /// The rank of the polytope, counted from the nullitope at zero.
        rank: usize,
    },
    /// A smaller variant of a polytope.
    Small(Box<Name<T>>),
    /// A greater variant of a polytope.
    Great(Box<Name<T>>),
    /// A stellation of a polytope.
    Stellated(Box<Name<T>>),
    /// A compound of some polytopes, each with its multiplicity. No two
    /// components are equal, and none is a compound.
    Compound(Vec<(usize, Name<T>)>),
}

/// The views of a list of names.
pub open spec fn views<T: NameType>(s: Seq<Name<T>>) -> Seq<NameView>
    decreases s,
{
    Seq::new(
        s.len(),
        |i: int|
            if 0 <= i < s.len() {
                s[i].model()
            } else {
                NameView::Nullitope
            },
    )
}

/// The views of a list of components.
pub open spec fn part_views<T: NameType>(s: Seq<(usize, Name<T>)>) -> Seq<(nat, NameView)>
    decreases s,
{
    Seq::new(
        s.len(),
        |i: int|
            if 0 <= i < s.len() {
                (s[i].0 as nat, s[i].1.model())
            } else {
                (0nat, NameView::Nullitope)
            },
    )
}

impl<T: NameType> Name<T> {
    /// The model of the name.
    pub open spec fn model(self) -> NameView
        decreases self,
    {
        match self {
            Name::Nullitope => NameView::Nullitope,
            Name::Point => NameView::Point,
            Name::Dyad => NameView::Dyad,
            Name::Triangle { regular } => NameView::Triangle { regular: regular.value() },
            Name::Quadrilateral { quad } => NameView::Quadrilateral { quad: quad.value() },
            Name::Polygon { regular, n } => NameView::Polygon {
                regular: regular.value(),
                n: n as nat,
            },
            Name::Pyramid(base) => NameView::Single(Product::Pyramid, Box::new(base.model())),
            Name::Prism(base) => NameView::Single(Product::Prism, Box::new(base.model())),
            Name::Tegum(base) => NameView::Single(Product::Tegum, Box::new(base.model())),
            Name::Multipyramid(bases) => NameView::Multi(Product::Pyramid, views(bases@)),
            Name::Multiprism(bases) => NameView::Multi(Product::Prism, views(bases@)),
            Name::Multitegum(bases) => NameView::Multi(Product::Tegum, views(bases@)),
            Name::Multicomb(bases) => NameView::Multi(Product::Comb, views(bases@)),
            Name::Antiprism { base } => NameView::Antiprism { base: Box::new(base.model()) },
            Name::Antitegum { base, center } => NameView::Antitegum {
                base: Box::new(base.model()),
                center: center.value(),
            },
            Name::Petrial { base } => NameView::Petrial { base: Box::new(base.model()) },
            Name::Dual { base, center } => NameView::Dual {
                base: Box::new(base.model()),
                center: center.value(),
            },
            Name::Ditope { base, rank } => NameView::Ditope {
                base: Box::new(base.model()),
                rank: rank as nat,
            },
            Name::Hosotope { base, rank } => NameView::Hosotope {
                base: Box::new(base.model()),
                rank: rank as nat,
            },
            Name::Simplex { regular, rank } => NameView::Simplex {
                regular: regular.value(),
                rank: rank as nat,
            },
            Name::Cuboid { regular } => NameView::Cuboid { regular: regular.value() },
            Name::Hyperblock { regular, rank } => NameView::Hyperblock {
                regular: regular.value(),
                rank: rank as nat,
            },
            Name::Orthoplex { regular, rank } => NameView::Orthoplex {
                regular: regular.value(),
                rank: rank as nat,
            },
            Name::Generic { facet_count, rank } => NameView::Generic {
                facet_count: facet_count as nat,
                rank: rank as nat,
            },
            Name::Small(base) => NameView::Small(Box::new(base.model())),
            Name::Great(base) => NameView::Great(Box::new(base.model())),
            Name::Stellated(base) => NameView::Stellated(Box::new(base.model())),
            Name::Compound(parts) => NameView::Compound(part_views(parts@)),
        }
    }

    /// Every payload of a name is held exactly where its regime holds
    /// payloads, and every number of it fits the machine's word.
    pub proof fn lemma_well_formed(self)
        ensures
            in_regime(self@, T::regime()),
            fits(self@),
        decreases self,
    {
        match self {
            Name::Triangle { regular } => {
                T::lemma_regular(regular);
                assert(in_regime(self@, T::regime()));
            },
            Name::Quadrilateral { quad } => {
                T::lemma_quadrilateral(quad);
            },
            Name::Polygon { regular, .. } => {
                T::lemma_regular(regular);
            },
            Name::Pyramid(base) => {
                base.lemma_well_formed();
            },
            Name::Prism(base) => {
                base.lemma_well_formed();
            },
            Name::Tegum(base) => {
                base.lemma_well_formed();
            },
            Name::Multipyramid(bases) => {
                Self::lemma_all_well_formed(bases@);
            },
            Name::Multiprism(bases) => {
                Self::lemma_all_well_formed(bases@);
            },
            Name::Multitegum(bases) => {
                Self::lemma_all_well_formed(bases@);
            },
            Name::Multicomb(bases) => {
                Self::lemma_all_well_formed(bases@);
            },
            Name::Antiprism { base } => {
                base.lemma_well_formed();
            },
            Name::Antitegum { base, center } => {
                T::lemma_point(center);
                base.lemma_well_formed();
            },
            Name::Petrial { base } => {
                base.lemma_well_formed();
            },
            Name::Dual { base, center } => {
                T::lemma_point(center);
                base.lemma_well_formed();
            },
            Name::Ditope { base, .. } => {
                base.lemma_well_formed();
            },
            Name::Hosotope { base, .. } => {
                base.lemma_well_formed();
            },
            Name::Simplex { regular, .. } => {
                T::lemma_regular(regular);
            },
            Name::Cuboid { regular } => {
                T::lemma_regular(regular);
            },
            Name::Hyperblock { regular, .. } => {
                T::lemma_regular(regular);
            },
            Name::Orthoplex { regular, .. } => {
                T::lemma_regular(regular);
            },
            Name::Small(base) => {
                base.lemma_well_formed();
            },
            Name::Great(base) => {
                base.lemma_well_formed();
            },
            Name::Stellated(base) => {
                base.lemma_well_formed();
            },
            Name::Compound(parts) => {
                let s = parts@;
                assert(part_views(s).len() == s.len());
                assert forall|i: int| 0 <= i < s.len() implies in_regime(
                    (#[trigger] part_views(s)[i]).1,
                    T::regime(),
                ) && part_views(s)[i].0 <= usize::MAX && fits(part_views(s)[i].1) by {
                    assert(decreases_to!(self => s[i].1));
                    s[i].1.lemma_well_formed();
                }
            },
            _ => {},
        }
    }

    /// Every name of a list is well formed.
    pub proof fn lemma_all_well_formed(s: Seq<Name<T>>)
        ensures
            views(s).len() == s.len(),
            forall|i: int|
                0 <= i < s.len() ==> in_regime(#[trigger] views(s)[i], T::regime()) && fits(
                    views(s)[i],
                ),
        decreases s,
    {
        assert forall|i: int| 0 <= i < s.len() implies in_regime(
            #[trigger] views(s)[i],
            T::regime(),
        ) && fits(views(s)[i]) by {
            s[i].lemma_well_formed();
        }
    }
}

/// The view of a list goes element by element.
pub proof fn lemma_views<T: NameType>(s: Seq<Name<T>>)
    ensures
        views(s).len() == s.len(),
        forall|i: int| 0 <= i < s.len() ==> #[trigger] views(s)[i] == s[i]@,
{
}

/// The view of a list with one more name at its end.
pub proof fn lemma_views_push<T: NameType>(s: Seq<Name<T>>, x: Name<T>)
    ensures
        views(s.push(x)) == views(s).push(x@),
{
    assert(views(s.push(x)) =~= views(s).push(x@));
}

/// The view of two lists joined.
pub proof fn lemma_views_add<T: NameType>(a: Seq<Name<T>>, b: Seq<Name<T>>)
    ensures
        views(a + b) == views(a) + views(b),
{
    assert(views(a + b) =~= views(a) + views(b));
}

/// The view of a list with one more name at place `i`.
pub proof fn lemma_views_insert<T: NameType>(s: Seq<Name<T>>, i: int, x: Name<T>)
    requires
        0 <= i <= s.len(),
    ensures
        views(s.insert(i, x)) == views(s).insert(i, x@),
{
    assert(views(s.insert(i, x)) =~= views(s).insert(i, x@));
}

/// The view of a list of components goes element by element.
pub proof fn lemma_part_views<T: NameType>(s: Seq<(usize, Name<T>)>)
    ensures
        part_views(s).len() == s.len(),
        forall|i: int|
            0 <= i < s.len() ==> #[trigger] part_views(s)[i] == (s[i].0 as nat, s[i].1@),
{
}

/// The view of a list of components with one more at its end.
pub proof fn lemma_part_views_push<T: NameType>(s: Seq<(usize, Name<T>)>, x: (usize, Name<T>))
    ensures
        part_views(s.push(x)) == part_views(s).push((x.0 as nat, x.1@)),
{
    assert(part_views(s.push(x)) =~= part_views(s).push((x.0 as nat, x.1@)));
}

/// The view of two lists of components joined.
pub proof fn lemma_part_views_add<T: NameType>(
    a: Seq<(usize, Name<T>)>,
    b: Seq<(usize, Name<T>)>,
)
    ensures
        part_views(a + b) == part_views(a) + part_views(b),
{
    assert(part_views(a + b) =~= part_views(a) + part_views(b));
}

/// The view of a list of components with one more at place `i`.
pub proof fn lemma_part_views_insert<T: NameType>(
    s: Seq<(usize, Name<T>)>,
    i: int,
    x: (usize, Name<T>),
)
    requires
        0 <= i <= s.len(),
    ensures
        part_views(s.insert(i, x)) == part_views(s).insert(i, (x.0 as nat, x.1@)),
{
    assert(part_views(s.insert(i, x)) =~= part_views(s).insert(i, (x.0 as nat, x.1@)));
}

impl<T: NameType> View for Name<T> {
    type V = NameView;

    open spec fn view(&self) -> NameView {
        self.model()
    }
}

/// A nullitope is the default name.
impl<T: NameType> Default for Name<T> {
    fn default() -> (r: Self)
        ensures
            r@ == NameView::Nullitope,
    {
        Name::Nullitope
    }
}

} // verus!
