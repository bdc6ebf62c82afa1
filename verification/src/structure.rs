//! Structural equality and copies of names.

use crate::data::NameData;
use crate::name::{
    lemma_part_views, lemma_part_views_push, lemma_views, lemma_views_push, Name, part_views, views,
};
use crate::regime::NameType;
use vstd::prelude::*;

verus! {

impl<T: NameType> Name<T> {
    /// Whether two lists hold the same names in the same order.
    fn all_same(a: &Vec<Name<T>>, b: &Vec<Name<T>>) -> (r: bool)
        ensures
            r == (views(a@) == views(b@)),
        decreases a,
    {
        proof {
            lemma_views(a@);
            lemma_views(b@);
        }
        if a.len() != b.len() {
            return false;
        }
        let mut i: usize = 0;
        while i < a.len()
            invariant
                i <= a.len(),
                a.len() == b.len(),
                forall|j: int| 0 <= j < i ==> (#[trigger] a@[j])@ == b@[j]@,
            decreases a.len() - i,
        {
            proof {
                assert(decreases_to!(a => a@[i as int]));
            }
            if !a[i].same(&b[i]) {
                proof {
                    lemma_views(a@);
                    lemma_views(b@);
                    assert(views(a@)[i as int] != views(b@)[i as int]);
                }
                return false;
            }
            i = i + 1;
        }
        proof {
            lemma_views(a@);
            lemma_views(b@);
            assert(views(a@) =~= views(b@));
        }
        true
    }

    /// Whether two lists hold the same components in the same order.
    fn parts_same(a: &Vec<(usize, Name<T>)>, b: &Vec<(usize, Name<T>)>) -> (r: bool)
        ensures
            r == (part_views(a@) == part_views(b@)),
        decreases a,
    {
        proof {
            lemma_part_views(a@);
            lemma_part_views(b@);
        }
        if a.len() != b.len() {
            return false;
        }
        let mut i: usize = 0;
        while i < a.len()
            invariant
                i <= a.len(),
                a.len() == b.len(),
                forall|j: int|
                    0 <= j < i ==> (#[trigger] a@[j]).0 == b@[j].0 && a@[j].1@ == b@[j].1@,
            decreases a.len() - i,
        {
            proof {
                assert(decreases_to!(a => a@[i as int].1));
            }
            if a[i].0 != b[i].0 || !a[i].1.same(&b[i].1) {
                proof {
                    lemma_part_views(a@);
                    lemma_part_views(b@);
                    assert(part_views(a@)[i as int] != part_views(b@)[i as int]);
                }
                return false;
            }
            i = i + 1;
        }
        proof {
            lemma_part_views(a@);
            lemma_part_views(b@);
            assert(part_views(a@) =~= part_views(b@));
        }
        true
    }

    /// Whether two names are structurally equal: the same tree, with the
    /// same payloads.
    pub fn same(&self, other: &Self) -> (r: bool)
        ensures
            r == (self@ == other@),
        decreases self,
    {
        match (self, other) {
            (Name::Nullitope, Name::Nullitope) => true,
            (Name::Point, Name::Point) => true,
            (Name::Dyad, Name::Dyad) => true,
            (Name::Triangle { regular: a }, Name::Triangle { regular: b }) => a.same(b),
            (Name::Quadrilateral { quad: a }, Name::Quadrilateral { quad: b }) => a.same(b),
            (Name::Polygon { regular: a, n }, Name::Polygon { regular: b, n: m }) => *n == *m
                && a.same(b),
            (Name::Pyramid(a), Name::Pyramid(b)) => a.same(b),
            (Name::Prism(a), Name::Prism(b)) => a.same(b),
            (Name::Tegum(a), Name::Tegum(b)) => a.same(b),
            (Name::Multipyramid(a), Name::Multipyramid(b)) => Self::all_same(a, b),
            (Name::Multiprism(a), Name::Multiprism(b)) => Self::all_same(a, b),
            (Name::Multitegum(a), Name::Multitegum(b)) => Self::all_same(a, b),
            (Name::Multicomb(a), Name::Multicomb(b)) => Self::all_same(a, b),
            (Name::Antiprism { base: a }, Name::Antiprism { base: b }) => a.same(b),
            (
                Name::Antitegum { base: a, center: c },
                Name::Antitegum { base: b, center: d },
            ) => c.same(d) && a.same(b),
            (Name::Petrial { base: a }, Name::Petrial { base: b }) => a.same(b),
            (Name::Dual { base: a, center: c }, Name::Dual { base: b, center: d }) => c.same(d)
                && a.same(b),
            (Name::Ditope { base: a, rank: r }, Name::Ditope { base: b, rank: s }) => *r == *s
                && a.same(b),
            (Name::Hosotope { base: a, rank: r }, Name::Hosotope { base: b, rank: s }) => *r
                == *s && a.same(b),
            (Name::Simplex { regular: a, rank: r }, Name::Simplex { regular: b, rank: s }) => *r
                == *s && a.same(b),
            (Name::Cuboid { regular: a }, Name::Cuboid { regular: b }) => a.same(b),
            (
                Name::Hyperblock { regular: a, rank: r },
                Name::Hyperblock { regular: b, rank: s },
            ) => *r == *s && a.same(b),
            (
                Name::Orthoplex { regular: a, rank: r },
                Name::Orthoplex { regular: b, rank: s },
            ) => *r == *s && a.same(b),
            (
                Name::Generic { facet_count: f, rank: r },
                Name::Generic { facet_count: g, rank: s },
            ) => *f == *g && *r == *s,
            (Name::Small(a), Name::Small(b)) => a.same(b),
            (Name::Great(a), Name::Great(b)) => a.same(b),
            (Name::Stellated(a), Name::Stellated(b)) => a.same(b),
            (Name::Compound(a), Name::Compound(b)) => Self::parts_same(a, b),
            _ => false,
        }
    }

    /// Applies a function that takes a name to the name behind a
    /// reference.
    pub fn into_mut<F: FnOnce(Self) -> Self>(&mut self, f: F)
        requires
            f.requires((*old(self),)),
        ensures
            f.ensures((*old(self),), *final(self)),
    {
        let mut taken = Name::Nullitope;
        core::mem::swap(self, &mut taken);
        *self = f(taken);
    }

    /// A copy of a list of names.
    fn duplicate_all(bases: &Vec<Name<T>>) -> (r: Vec<Name<T>>)
        ensures
            views(r@) == views(bases@),
        decreases bases,
    {
        let mut out: Vec<Name<T>> = Vec::new();
        let mut i: usize = 0;
        proof {
            assert(views(out@) =~= views(bases@.take(0)));
        }
        while i < bases.len()
            invariant
                i <= bases.len(),
                views(out@) == views(bases@.take(i as int)),
            decreases bases.len() - i,
        {
            proof {
                assert(decreases_to!(bases => bases@[i as int]));
            }
            let copy = bases[i].duplicate();
            proof {
                lemma_views_push(out@, copy);
                lemma_views_push(bases@.take(i as int), bases@[i as int]);
                assert(bases@.take(i + 1) =~= bases@.take(i as int).push(bases@[i as int]));
            }
            out.push(copy);
            i = i + 1;
        }
        assert(bases@.take(i as int) =~= bases@);
        out
    }

    /// A copy of a list of components.
    fn duplicate_parts(parts: &Vec<(usize, Name<T>)>) -> (r: Vec<(usize, Name<T>)>)
        ensures
            part_views(r@) == part_views(parts@),
        decreases parts,
    {
        let mut out: Vec<(usize, Name<T>)> = Vec::new();
        let mut i: usize = 0;
        proof {
            assert(part_views(out@) =~= part_views(parts@.take(0)));
        }
        while i < parts.len()
            invariant
                i <= parts.len(),
                part_views(out@) == part_views(parts@.take(i as int)),
            decreases parts.len() - i,
        {
            proof {
                assert(decreases_to!(parts => parts@[i as int].1));
            }
            let copy = (parts[i].0, parts[i].1.duplicate());
            proof {
                lemma_part_views_push(out@, copy);
                lemma_part_views_push(parts@.take(i as int), parts@[i as int]);
                assert(parts@.take(i + 1) =~= parts@.take(i as int).push(parts@[i as int]));
            }
            out.push(copy);
            i = i + 1;
        }
        assert(parts@.take(i as int) =~= parts@);
        out
    }

    /// A copy of the name.
    pub fn duplicate(&self) -> (r: Self)
        ensures
            r@ == self@,
        decreases self,
    {
        match self {
            Name::Nullitope => Name::Nullitope,
            Name::Point => Name::Point,
            Name::Dyad => Name::Dyad,
            Name::Triangle { regular } => Name::Triangle { regular: regular.duplicate() },
            Name::Quadrilateral { quad } => Name::Quadrilateral { quad: quad.duplicate() },
            Name::Polygon { regular, n } => Name::Polygon { regular: regular.duplicate(), n: *n },
            Name::Pyramid(base) => Name::Pyramid(Box::new(base.duplicate())),
            Name::Prism(base) => Name::Prism(Box::new(base.duplicate())),
            Name::Tegum(base) => Name::Tegum(Box::new(base.duplicate())),
            Name::Multipyramid(bases) => Name::Multipyramid(Self::duplicate_all(bases)),
            Name::Multiprism(bases) => Name::Multiprism(Self::duplicate_all(bases)),
            Name::Multitegum(bases) => Name::Multitegum(Self::duplicate_all(bases)),
            Name::Multicomb(bases) => Name::Multicomb(Self::duplicate_all(bases)),
            Name::Antiprism { base } => Name::Antiprism { base: Box::new(base.duplicate()) },
            Name::Antitegum { base, center } => Name::Antitegum {
                base: Box::new(base.duplicate()),
                center: center.duplicate(),
            },
            Name::Petrial { base } => Name::Petrial { base: Box::new(base.duplicate()) },
            Name::Dual { base, center } => Name::Dual {
                base: Box::new(base.duplicate()),
                center: center.duplicate(),
            },
            Name::Ditope { base, rank } => Name::Ditope {
                base: Box::new(base.duplicate()),
                rank: *rank,
            },
            Name::Hosotope { base, rank } => Name::Hosotope {
                base: Box::new(base.duplicate()),
                rank: *rank,
            },
            Name::Simplex { regular, rank } => Name::Simplex {
                regular: regular.duplicate(),
                rank: *rank,
            },
            Name::Cuboid { regular } => Name::Cuboid { regular: regular.duplicate() },
            Name::Hyperblock { regular, rank } => Name::Hyperblock {
                regular: regular.duplicate(),
                rank: *rank,
            },
            Name::Orthoplex { regular, rank } => Name::Orthoplex {
                regular: regular.duplicate(),
                rank: *rank,
            },
            Name::Generic { facet_count, rank } => Name::Generic {
                facet_count: *facet_count,
                rank: *rank,
            },
            Name::Small(base) => Name::Small(Box::new(base.duplicate())),
            Name::Great(base) => Name::Great(Box::new(base.duplicate())),
            Name::Stellated(base) => Name::Stellated(Box::new(base.duplicate())),
            Name::Compound(parts) => Name::Compound(Self::duplicate_parts(parts)),
        }
    }
}

impl<T: NameType> Clone for Name<T> {
    fn clone(&self) -> (r: Self)
        ensures
            r@ == self@,
    {
        self.duplicate()
    }
}

impl<T: NameType> PartialEq for Name<T> {
    fn eq(&self, other: &Self) -> (r: bool) {
        self.same(other)
    }
}

impl<T: NameType> vstd::std_specs::cmp::PartialEqSpecImpl for Name<T> {
    open spec fn obeys_eq_spec() -> bool {
        true
    }

    open spec fn eq_spec(&self, other: &Self) -> bool {
        self@ == other@
    }
}

} // verus!
