//! Antiprisms, duals, ditopes, hosotopes and Petrials: the constructions on
//! one polytope that are no product.
use crate::algebra::{
    antiprism_of, centers_agree, default_regular, ditope_of, dual_of, dual_ready, duals_of,
    hosotope_of, lemma_seq_height_bound, petrial_of, regular_dual,
};
use crate::data::{NameData, Point, Quadrilateral, Regular};
use crate::model::{fits, height, measurable, NameView, seq_height, valid};
use crate::name::{lemma_views, lemma_views_push, Name, views};
use crate::regime::{NameType, Regime};
use crate::validity::{
    dual_sound, lemma_antiprism_valid, lemma_ditope_valid, lemma_dual_valid, lemma_hosotope_valid,
    lemma_petrial_valid,
};
use vstd::prelude::*;

verus! {

/// The duals of the first names of a list, and of one more.
pub proof fn lemma_duals_push(s: Seq<NameView>, k: int, c: Option<Seq<i64>>, g: Regime)
    requires
        0 <= k < s.len(),
    ensures
        duals_of(s.take(k + 1), c, g) == duals_of(s.take(k), c, g).push(dual_of(s[k], c, g)),
{
    assert(duals_of(s.take(k + 1), c, g) =~= duals_of(s.take(k), c, g).push(dual_of(s[k], c, g)));
}

impl<T: NameType> Name<T> {
    /// Whether the antiprism of the name can be made within the limits of
    /// the machine.
    pub fn can_antiprism(&self) -> (b: bool)
        ensures
            b == fits(antiprism_of(self@, T::regime())),
    {
        proof {
            self.lemma_well_formed();
        }
        match self {
            Name::Simplex { rank, .. } => *rank < usize::MAX,
            _ => true,
        }
    }

    /// Builds an antiprism name from a given name.
    pub fn antiprism(self) -> (r: Self)
        requires
            fits(antiprism_of(self@, T::regime())),
        ensures
            r@ == antiprism_of(self@, T::regime()),
            valid(self@) ==> valid(r@),
    {
        proof {
            if valid(self@) {
                lemma_antiprism_valid(self@, T::regime());
            }
        }
        match self {
            // Hardcoded cases.
            Name::Nullitope => Name::Point,
            Name::Point => Name::Dyad,
            Name::Dyad => Self::orthodiagonal(),
            // Simplices become irregular orthoplices.
            Name::Simplex { rank, .. } => Self::orthoplex(Self::default_regular(), rank + 1),
            // The default is an antiprism of the base.
            other => Name::Antiprism { base: Box::new(other) },
        }
    }

    /// Makes a ditope of the given rank, counted from the nullitope at
    /// zero, out of the name.
    pub fn ditope(self, rank: usize) -> (r: Self)
        ensures
            r@ == ditope_of(self@, rank as nat, T::regime()),
            valid(self@) ==> valid(r@),
    {
        proof {
            if valid(self@) {
                lemma_ditope_valid(self@, rank as nat, T::regime());
            }
        }
        match self {
            // The nullitope stays as it is.
            Name::Nullitope => Name::Nullitope,
            // Hardcoded cases.
            Name::Point => Name::Dyad,
            Name::Dyad => Self::polygon(Self::default_regular(), 2),
            // In any other case, the name is boxed.
            other => Name::Ditope { base: Box::new(other), rank },
        }
    }

    /// Makes a hosotope of the given rank, counted from the nullitope at
    /// zero, out of the name.
    pub fn hosotope(self, rank: usize) -> (r: Self)
        ensures
            r@ == hosotope_of(self@, rank as nat, T::regime()),
            valid(self@) ==> valid(r@),
    {
        proof {
            if valid(self@) {
                lemma_hosotope_valid(self@, rank as nat, T::regime());
            }
        }
        match self {
            // The nullitope stays as it is.
            Name::Nullitope => Name::Nullitope,
            // Hardcoded cases.
            Name::Point => Name::Dyad,
            Name::Dyad => Self::polygon(Self::default_regular(), 2),
            // In any other case, the name is boxed.
            other => Name::Hosotope { base: Box::new(other), rank },
        }
    }

    /// Makes a Petrial out of the name.
    pub fn petrial(self) -> (r: Self)
        ensures
            r@ == petrial_of(self@),
            valid(self@) ==> valid(r@),
    {
        proof {
            if valid(self@) {
                lemma_petrial_valid(self@);
            }
        }
        match self {
            // Petrials are involutions.
            Name::Petrial { base } => *base,
            // In any other case, the name is boxed.
            other => Name::Petrial { base: Box::new(other) },
        }
    }

    /// The regularity of the dual around `center` of a shape of the
    /// regularity `regular`.
    fn regular_dual(regular: T::DataRegular, center: &T::DataPoint) -> (r: T::DataRegular)
        ensures
            r.value() == regular_dual(regular.value(), center.value(), T::regime()),
    {
        proof {
            T::lemma_regular(regular);
            T::lemma_point(*center);
        }
        let eps = match T::eps() {
            Some(eps) => eps,
            None => {
                return regular;
            },
        };
        let keep = match regular.unwrap_ref() {
            Regular::Yes { center: recorded } => center.unwrap_ref().within(recorded, eps),
            Regular::No => true,
        };
        if keep {
            regular
        } else {
            Self::default_regular()
        }
    }

    /// The duals around `center` of the names of a list.
    fn duals(bases: Vec<Name<T>>, center: T::DataPoint, Ghost(bound): Ghost<nat>) -> (r: Vec<
        Name<T>,
    >)
        requires
            T::regime() is Abstract,
            seq_height(views(bases@)) < bound,
        ensures
            views(r@) == duals_of(views(bases@), center.value(), T::regime()),
        decreases bound, 0nat,
    {
        let ghost orig = bases@;
        let ghost all = views(bases@);
        let ghost c = center.value();
        let ghost g = T::regime();
        let mut out: Vec<Name<T>> = Vec::new();
        proof {
            lemma_views(orig);
            assert(views(out@) =~= duals_of(all.take(0), c, g));
        }
        for base in it: bases.into_iter()
            invariant
                it.seq() == orig,
                all == views(orig),
                all.len() == orig.len(),
                c == center.value(),
                g == T::regime(),
                g is Abstract,
                seq_height(all) < bound,
                views(out@) == duals_of(all.take(it.index() as int), c, g),
        {
            let ghost idx = it.index() as int;
            proof {
                lemma_views(orig);
                assert(base@ == all[idx]);
                lemma_seq_height_bound(all, idx);
                lemma_duals_push(all, idx, c, g);
            }
            let dual = base.dual(center.duplicate());
            proof {
                lemma_views_push(out@, dual);
            }
            out.push(dual);
        }
        proof {
            assert(all.take(orig.len() as int) =~= all);
        }
        out
    }

    /// Whether the dual of the name around `center` can be made within the
    /// limits of the machine.
    pub fn can_dual(&self, center: &T::DataPoint) -> (b: bool)
        ensures
            b == dual_ready(self@, center.value(), T::regime()),
    {
        proof {
            T::lemma_point(*center);
        }
        if T::is_abstract() {
            return true;
        }
        match self {
            Name::Dual { base, center: recorded } => {
                proof {
                    T::lemma_point(*recorded);
                }
                center.eq_or(recorded, true) || base.is_measurable()
            },
            _ => true,
        }
    }

    /// Builds a dual name from a given name and the center of the
    /// dualizing.
    pub fn dual(self, center: T::DataPoint) -> (r: Self)
        requires
            dual_ready(self@, center.value(), T::regime()),
        ensures
            r@ == dual_of(self@, center.value(), T::regime()),
            valid(self@) && dual_sound(self@, center.value(), T::regime()) ==> valid(r@),
        decreases height(self@), 1nat,
    {
        let ghost g = T::regime();
        proof {
            T::lemma_point(center);
            if valid(self@) && dual_sound(self@, center.value(), g) {
                lemma_dual_valid(self@, center.value(), g);
            }
        }
        match self {
            // Self-dual polytopes.
            Name::Nullitope => Name::Nullitope,
            Name::Point => Name::Point,
            Name::Dyad => Name::Dyad,
            // Other hardcoded cases.
            Name::Triangle { regular } => Name::Triangle {
                regular: Self::regular_dual(regular, &center),
            },
            Name::Quadrilateral { quad } => {
                if quad.is_or(&Quadrilateral::Orthodiagonal, true) {
                    Self::polygon(Self::default_regular(), 4)
                } else {
                    Self::orthodiagonal()
                }
            },
            // The dual of a dual is the polytope itself if possible, and
            // a generic name otherwise.
            Name::Dual { base, center: recorded } => {
                proof {
                    T::lemma_point(recorded);
                }
                if center.eq_or(&recorded, true) {
                    *base
                } else {
                    match (base.facet_count(), base.rank()) {
                        (Some(f), Some(r)) => {
                            if r >= -1 {
                                Self::generic(f, (r as i128 + 1) as usize)
                            } else {
                                Name::Dual {
                                    base: Box::new(Name::Dual { base, center: recorded }),
                                    center,
                                }
                            }
                        },
                        _ => Name::Dual {
                            base: Box::new(Name::Dual { base, center: recorded }),
                            center,
                        },
                    }
                }
            },
            // Regular duals.
            Name::Polygon { regular, n } => Self::polygon(
                Self::regular_dual(regular, &center),
                n,
            ),
            Name::Simplex { regular, rank } => Self::simplex(
                Self::regular_dual(regular, &center),
                rank,
            ),
            Name::Cuboid { regular } => Self::orthoplex(Self::regular_dual(regular, &center), 4),
            Name::Hyperblock { regular, rank } => Self::orthoplex(
                Self::regular_dual(regular, &center),
                rank,
            ),
            Name::Orthoplex { regular, rank } => Self::hyperblock(
                Self::regular_dual(regular, &center),
                rank,
            ),
            // Duals of modifiers.
            Name::Pyramid(base) => {
                if T::is_abstract() {
                    Name::Pyramid(Box::new(base.dual(center)))
                } else {
                    Name::Dual { base: Box::new(Name::Pyramid(base)), center }
                }
            },
            Name::Prism(base) => {
                if T::is_abstract() {
                    Name::Tegum(Box::new(base.dual(center)))
                } else {
                    Name::Dual { base: Box::new(Name::Prism(base)), center }
                }
            },
            Name::Tegum(base) => {
                if T::is_abstract() {
                    Name::Prism(Box::new(base.dual(center)))
                } else {
                    Name::Dual { base: Box::new(Name::Tegum(base)), center }
                }
            },
            Name::Antiprism { base } => Name::Antitegum { base, center },
            Name::Antitegum { base, center: recorded } => {
                proof {
                    T::lemma_point(recorded);
                }
                if center.eq_or(&recorded, true) {
                    Name::Antiprism { base }
                } else {
                    Name::Dual {
                        base: Box::new(Name::Antitegum { base, center: recorded }),
                        center,
                    }
                }
            },
            // Duals of products.
            Name::Multipyramid(bases) => {
                if T::is_abstract() {
                    Name::Multipyramid(
                        Self::duals(bases, center, Ghost(height(self@))),
                    )
                } else {
                    Name::Dual { base: Box::new(Name::Multipyramid(bases)), center }
                }
            },
            Name::Multiprism(bases) => {
                if T::is_abstract() {
                    Name::Multitegum(Self::duals(bases, center, Ghost(height(self@))))
                } else {
                    Name::Dual { base: Box::new(Name::Multiprism(bases)), center }
                }
            },
            Name::Multitegum(bases) => {
                if T::is_abstract() {
                    Name::Multiprism(Self::duals(bases, center, Ghost(height(self@))))
                } else {
                    Name::Dual { base: Box::new(Name::Multitegum(bases)), center }
                }
            },
            Name::Multicomb(bases) => {
                if T::is_abstract() {
                    Name::Multicomb(Self::duals(bases, center, Ghost(height(self@))))
                } else {
                    Name::Dual { base: Box::new(Name::Multicomb(bases)), center }
                }
            },
            // The default is a dual of the name.
            other => Name::Dual { base: Box::new(other), center },
        }
    }
}

} // verus!
