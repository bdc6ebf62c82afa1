//! The names of the shapes that come in families: simplices, blocks,
//! orthoplices, polygons, and polytopes known only by their facet count and
//! rank. Below a rank each family has names of its own, and these functions
//! are the one place that knows them.
use crate::algebra::{
    default_regular, generic_of, hyperblock_of, orthodiagonal_of, orthoplex_of, polygon_of,
    rectangle_of, simplex_of, square_of,
};
use crate::data::{NameData, Quadrilateral, Regular};
use crate::model::valid;
use crate::name::Name;
use crate::regime::NameType;
use crate::validity::{
    lemma_generic_valid, lemma_hyperblock_valid, lemma_orthoplex_valid, lemma_polygon_valid,
    lemma_simplex_valid,
};
use vstd::prelude::*;

verus! {

impl<T: NameType> Name<T> {
    /// The regularity of a shape of which nothing is known.
    pub fn default_regular() -> (r: T::DataRegular)
        ensures
            r.value() == default_regular(T::regime()),
    {
        let r = T::DataRegular::new(Regular::No);
        proof {
            T::lemma_regular(r);
        }
        r
    }

    /// Returns the name for a square.
    pub fn square() -> (r: Self)
        ensures
            r@ == square_of(T::regime()),
            valid(r@),
    {
        let quad = T::DataQuadrilateral::new(Quadrilateral::Square);
        proof {
            T::lemma_quadrilateral(quad);
        }
        Name::Quadrilateral { quad }
    }

    /// Returns the name for a rectangle. In the abstract regime it is the
    /// name for a square.
    pub fn rectangle() -> (r: Self)
        ensures
            r@ == rectangle_of(T::regime()),
            valid(r@),
    {
        let quad = T::DataQuadrilateral::new(Quadrilateral::Rectangle);
        proof {
            T::lemma_quadrilateral(quad);
        }
        Name::Quadrilateral { quad }
    }

    /// Returns the name for an orthodiagonal quadrilateral. In the abstract
    /// regime it is the name for a square.
    pub fn orthodiagonal() -> (r: Self)
        ensures
            r@ == orthodiagonal_of(T::regime()),
            valid(r@),
    {
        let quad = T::DataQuadrilateral::new(Quadrilateral::Orthodiagonal);
        proof {
            T::lemma_quadrilateral(quad);
        }
        Name::Quadrilateral { quad }
    }

    /// The name for a simplex, regular or not, of the given rank counted
    /// from the nullitope at zero.
    pub fn simplex(regular: T::DataRegular, rank: usize) -> (r: Self)
        ensures
            r@ == simplex_of(regular.value(), rank as nat),
            valid(r@),
    {
        proof {
            lemma_simplex_valid(regular.value(), rank as nat);
        }
        if rank == 0 {
            Name::Nullitope
        } else if rank == 1 {
            Name::Point
        } else if rank == 2 {
            Name::Dyad
        } else if rank == 3 {
            Name::Triangle { regular }
        } else {
            Name::Simplex { regular, rank }
        }
    }

    /// The name for a block, regular or not, of the given rank counted from
    /// the nullitope at zero.
    pub fn hyperblock(regular: T::DataRegular, rank: usize) -> (r: Self)
        ensures
            r@ == hyperblock_of(regular.value(), rank as nat, T::regime()),
            valid(r@),
    {
        proof {
            lemma_hyperblock_valid(regular.value(), rank as nat, T::regime());
        }
        if rank == 0 {
            Name::Nullitope
        } else if rank == 1 {
            Name::Point
        } else if rank == 2 {
            Name::Dyad
        } else if rank == 3 {
            if regular.is_or(&Regular::No, false) {
                Self::rectangle()
            } else {
                Self::square()
            }
        } else if rank == 4 {
            Name::Cuboid { regular }
        } else {
            Name::Hyperblock { regular, rank }
        }
    }

    /// The name for a block under its other name: see [`Name::hyperblock`].
    pub fn cuboid(regular: T::DataRegular, rank: usize) -> (r: Self)
        ensures
            r@ == hyperblock_of(regular.value(), rank as nat, T::regime()),
            valid(r@),
    {
        Self::hyperblock(regular, rank)
    }

    /// The name for an orthoplex, regular or not, of the given rank counted
    /// from the nullitope at zero.
    pub fn orthoplex(regular: T::DataRegular, rank: usize) -> (r: Self)
        ensures
            r@ == orthoplex_of(regular.value(), rank as nat, T::regime()),
            valid(r@),
    {
        proof {
            lemma_orthoplex_valid(regular.value(), rank as nat, T::regime());
        }
        if rank == 0 {
            Name::Nullitope
        } else if rank == 1 {
            Name::Point
        } else if rank == 2 {
            Name::Dyad
        } else if rank == 3 {
            if regular.is_or(&Regular::No, false) {
                Self::orthodiagonal()
            } else {
                Self::square()
            }
        } else {
            Name::Orthoplex { regular, rank }
        }
    }

    /// Returns the name for a polygon (not necessarily regular) of `n`
    /// sides.
    pub fn polygon(regular: T::DataRegular, n: usize) -> (r: Self)
        ensures
            r@ == polygon_of(regular.value(), n as nat, T::regime()),
            valid(r@),
    {
        proof {
            lemma_polygon_valid(regular.value(), n as nat, T::regime());
        }
        if n == 3 {
            Name::Triangle { regular }
        } else if n == 4 && !regular.is_or(&Regular::No, false) {
            Self::square()
        } else {
            Name::Polygon { regular, n }
        }
    }

    /// The name for a polytope of which only the number `n` of facets and
    /// the rank, counted from the nullitope at zero, are known.
    pub fn generic(n: usize, rank: usize) -> (r: Self)
        ensures
            r@ == generic_of(n as nat, rank as nat, T::regime()),
            (rank >= 4 ==> n >= 2 && rank <= 21) ==> valid(r@),
    {
        proof {
            if rank >= 4 ==> n >= 2 && rank <= 21 {
                lemma_generic_valid(n as nat, rank as nat, T::regime());
            }
        }
        if rank == 0 {
            Name::Nullitope
        } else if rank == 1 {
            Name::Point
        } else if rank == 2 {
            Name::Dyad
        } else if rank == 3 {
            // The same scheme as for irregular polygons.
            Self::polygon(Self::default_regular(), n)
        } else {
            Name::Generic { facet_count: n, rank }
        }
    }
}

} // verus!
