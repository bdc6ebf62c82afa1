//! Pyramids, prisms and tegums, and the products of several polytopes. A
//! product takes its atoms out of the names it is given, flattens the
//! products of its own kind, and sorts what is left.
use crate::algebra::{
    Absorb, absorb, atom_of, collapse, double_unit, gathered, irregular, lemma_gathered_height,
    lemma_seq_height_pair, lemma_seq_height_push, multicomb_of, multiprism_of, multipyramid_of,
    multitegum_of, nullified, prism_of, product_of, product_ready, pyramid_of, single_of,
    single_ready, single_unit, tegum_of, units,
};
use crate::canon::{lemma_product_valid, lemma_single_valid};
use crate::data::{NameData, Quadrilateral, Regular};
use crate::model::{fits, height, is_multi, measurable, NameView, Product, seq_height, valid};
use crate::name::{lemma_views, lemma_views_add, lemma_views_insert, lemma_views_push, Name, views};
use crate::order::{
    by_name, key_le, lemma_position_bound, lemma_position_is, lemma_sort_len, lemma_sort_push,
    lemma_sort_single, name_key, position, sort,
};
use crate::regime::NameType;
use vstd::prelude::*;

verus! {

/// What a product makes of one name, as far as it can be told without
/// taking the name apart.
pub enum Class {
    /// The name makes the whole product a nullitope.
    Null,
    /// The name is an atom of the product, worth so many units.
    Units(usize),
    /// The name is a product of the same kind.
    Splice,
    /// The name stays as a base.
    Keep,
}

/// Whether a class tells what the product makes of a name.
pub open spec fn class_of(c: Class, a: Absorb) -> bool {
    match a {
        Absorb::Null => c is Null,
        Absorb::Units(u) => c == Class::Units(u as usize) && u <= usize::MAX,
        Absorb::Splice(_) => c is Splice,
        Absorb::Keep => c is Keep,
    }
}

/// The bases gathered from a prefix are those gathered from the shorter
/// prefix and what the product makes of the name that follows it.
pub proof fn lemma_gathered_step(kind: Product, s: Seq<NameView>, k: int)
    requires
        0 <= k < s.len(),
    ensures
        gathered(kind, s.take(k + 1)) == match absorb(kind, s[k]) {
            Absorb::Splice(inner) => gathered(kind, s.take(k)) + inner,
            Absorb::Keep => gathered(kind, s.take(k)).push(s[k]),
            _ => gathered(kind, s.take(k)),
        },
        units(kind, s.take(k + 1)) == match absorb(kind, s[k]) {
            Absorb::Units(u) => units(kind, s.take(k)) + u,
            _ => units(kind, s.take(k)),
        },
{
    assert(s.take(k + 1).drop_last() =~= s.take(k));
    assert(s.take(k + 1).last() == s[k]);
}

/// The units of a prefix never exceed the units of the list.
pub proof fn lemma_units_prefix(kind: Product, s: Seq<NameView>, k: int)
    requires
        0 <= k <= s.len(),
    ensures
        units(kind, s.take(k)) <= units(kind, s),
    decreases s.len() - k,
{
    if k == s.len() {
        assert(s.take(k) =~= s);
    } else {
        lemma_gathered_step(kind, s, k);
        lemma_units_prefix(kind, s, k + 1);
    }
}

/// A comb product has no atoms.
pub proof fn lemma_units_comb(s: Seq<NameView>)
    ensures
        units(Product::Comb, s) == 0,
    decreases s.len(),
{
    if s.len() > 0 {
        lemma_units_comb(s.drop_last());
    }
}

impl<T: NameType> Name<T> {
    /// The key that the name sorts by among the bases of a product: its
    /// rank, or -2 where it is unknown, then its facet count, or 0 where it
    /// is unknown.
    pub fn sort_key(&self) -> (k: (isize, usize))
        requires
            measurable(self@),
        ensures
            (k.0 as int, k.1 as nat) == name_key(self@),
    {
        let rank = match self.rank() {
            Some(r) => r,
            None => -2,
        };
        let facets = match self.facet_count() {
            Some(f) => f,
            None => 0,
        };
        (rank, facets)
    }

    /// Whether the key `a` stands at or before the key `b`.
    pub(crate) fn key_le(a: (isize, usize), b: (isize, usize)) -> (r: bool)
        ensures
            r == key_le((a.0 as int, a.1 as nat), (b.0 as int, b.1 as nat)),
    {
        a.0 < b.0 || (a.0 == b.0 && a.1 <= b.1)
    }

    /// Sorts the bases of a product: by rank, then by facet count, and
    /// otherwise in the order given.
    pub fn sort_bases(bases: Vec<Name<T>>) -> (r: Vec<Name<T>>)
        requires
            forall|i: int| 0 <= i < bases@.len() ==> measurable(#[trigger] views(bases@)[i]),
        ensures
            views(r@) == sort(views(bases@)),
    {
        let ghost orig = bases@;
        let ghost all = views(bases@);
        let mut out: Vec<Name<T>> = Vec::new();
        let mut keys: Vec<(isize, usize)> = Vec::new();
        proof {
            lemma_views(orig);
            assert(all.take(0) =~= Seq::<NameView>::empty());
            assert(views(out@) =~= sort(all.take(0)));
        }
        for base in it: bases.into_iter()
            invariant
                it.seq() == orig,
                all == views(orig),
                all.len() == orig.len(),
                forall|i: int| 0 <= i < orig.len() ==> measurable(#[trigger] all[i]),
                views(out@) == sort(all.take(it.index() as int)),
                keys@.len() == out@.len(),
                forall|j: int|
                    0 <= j < out@.len() ==> ((#[trigger] keys@[j]).0 as int, keys@[j].1 as nat)
                        == name_key(out@[j]@),
        {
            let ghost idx = it.index() as int;
            proof {
                lemma_views(orig);
                assert(base@ == all[idx]);
                assert(measurable(all[idx]));
            }
            let key = base.sort_key();
            let ghost before = views(out@);
            let mut pos: usize = out.len();
            proof {
                lemma_views(out@);
            }
            while pos > 0 && !Self::key_le(keys[pos - 1], key)
                invariant
                    pos <= out@.len(),
                    keys@.len() == out@.len(),
                    before == views(out@),
                    before.len() == out@.len(),
                    (key.0 as int, key.1 as nat) == name_key(base@),
                    forall|j: int|
                        0 <= j < out@.len() ==> ((#[trigger] keys@[j]).0 as int, keys@[j].1 as nat)
                            == name_key(out@[j]@),
                    forall|j: int|
                        pos <= j < before.len() ==> !key_le(
                            by_name()(#[trigger] before[j]),
                            by_name()(base@),
                        ),
                decreases pos,
            {
                proof {
                    lemma_views(out@);
                    assert(before[pos - 1] == out@[pos - 1]@);
                }
                pos = pos - 1;
            }
            proof {
                lemma_views(out@);
                if pos > 0 {
                    assert(before[pos - 1] == out@[pos - 1]@);
                }
                lemma_position_is(before, base@, by_name(), pos as int);
                lemma_views_insert(out@, pos as int, base);
                lemma_sort_push(all.take(idx), base@, by_name());
                assert(all.take(idx + 1) =~= all.take(idx).push(base@));
            }
            out.insert(pos, base);
            keys.insert(pos, key);
        }
        proof {
            assert(all.take(orig.len() as int) =~= all);
        }
        out
    }

    /// What the product of the given kind makes of the name.
    pub fn classify(&self, kind: Product) -> (c: Class)
        ensures
            class_of(c, absorb(kind, self@)),
    {
        match kind {
            Product::Pyramid => match self {
                Name::Nullitope => Class::Units(0),
                Name::Point => Class::Units(1),
                Name::Dyad => Class::Units(2),
                Name::Triangle { .. } => Class::Units(3),
                Name::Simplex { rank, .. } => Class::Units(*rank),
                Name::Multipyramid(_) => Class::Splice,
                _ => Class::Keep,
            },
            Product::Prism => match self {
                Name::Nullitope => Class::Null,
                Name::Point => Class::Units(0),
                Name::Dyad => Class::Units(1),
                Name::Quadrilateral { quad } => {
                    if quad.is_or(&Quadrilateral::Orthodiagonal, false) {
                        Class::Keep
                    } else {
                        Class::Units(2)
                    }
                },
                Name::Cuboid { .. } => Class::Units(3),
                Name::Hyperblock { rank, .. } => {
                    if *rank >= 1 {
                        Class::Units(*rank - 1)
                    } else {
                        Class::Units(0)
                    }
                },
                Name::Multiprism(_) => Class::Splice,
                _ => Class::Keep,
            },
            Product::Tegum => match self {
                Name::Nullitope => Class::Null,
                Name::Point => Class::Units(0),
                Name::Dyad => Class::Units(1),
                Name::Quadrilateral { quad } => {
                    if quad.contains(&Quadrilateral::Square) {
                        Class::Units(2)
                    } else {
                        Class::Keep
                    }
                },
                Name::Orthoplex { rank, .. } => {
                    if *rank >= 1 {
                        Class::Units(*rank - 1)
                    } else {
                        Class::Units(0)
                    }
                },
                Name::Multitegum(_) => Class::Splice,
                _ => Class::Keep,
            },
            Product::Comb => match self {
                Name::Nullitope => Class::Null,
                Name::Multicomb(_) => Class::Splice,
                _ => Class::Keep,
            },
        }
    }

    /// The bases of a product.
    fn into_bases(self) -> (r: Vec<Name<T>>)
        requires
            self@ is Multi,
        ensures
            self@ matches NameView::Multi(_, bases) && views(r@) == bases,
    {
        match self {
            Name::Multipyramid(bases) => bases,
            Name::Multiprism(bases) => bases,
            Name::Multitegum(bases) => bases,
            Name::Multicomb(bases) => bases,
            _ => Vec::new(),
        }
    }

    /// The product node of the given kind over `bases`.
    fn multi(kind: Product, bases: Vec<Name<T>>) -> (r: Self)
        ensures
            r@ == NameView::Multi(kind, views(bases@)),
    {
        match kind {
            Product::Pyramid => Name::Multipyramid(bases),
            Product::Prism => Name::Multiprism(bases),
            Product::Tegum => Name::Multitegum(bases),
            Product::Comb => Name::Multicomb(bases),
        }
    }

    /// The one atom that stands for `count` units of a product.
    pub(crate) fn atom(kind: Product, count: usize) -> (r: Self)
        requires
            kind != Product::Pyramid ==> count < usize::MAX,
        ensures
            r@ == atom_of(kind, count as nat, T::regime()),
    {
        match kind {
            Product::Pyramid => Self::simplex(Self::default_regular(), count),
            Product::Prism => Self::hyperblock(Self::default_regular(), count + 1),
            Product::Tegum => Self::orthoplex(Self::default_regular(), count + 1),
            Product::Comb => Name::Nullitope,
        }
    }

    /// The product of the given kind of `bases`.
    fn product(kind: Product, bases: Vec<Name<T>>) -> (r: Self)
        requires
            product_ready(kind, views(bases@), T::regime()),
        ensures
            r@ == product_of(kind, views(bases@), T::regime()),
        decreases 2 * seq_height(views(bases@)) + 1, 0nat,
    {
        let ghost orig = bases@;
        let ghost all = views(bases@);
        let ghost g = T::regime();
        proof {
            lemma_views(orig);
        }
        // A nullitope among the names makes the whole a nullitope.
        let mut i: usize = 0;
        while i < bases.len()
            invariant
                i <= bases.len(),
                bases@ == orig,
                all == views(orig),
                all.len() == orig.len(),
                forall|j: int| 0 <= j < i ==> !(absorb(kind, #[trigger] all[j]) is Null),
            decreases bases.len() - i,
        {
            proof {
                lemma_views(orig);
            }
            if let Class::Null = bases[i].classify(kind) {
                assert(absorb(kind, all[i as int]) is Null);
                return Name::Nullitope;
            }
            i = i + 1;
        }
        assert(!nullified(kind, all));
        let ghost total = units(kind, all);
        proof {
            lemma_units_comb(all);
            assert(total >= 2 ==> fits(atom_of(kind, total, g)));
            assert(kind == Product::Pyramid ==> total <= usize::MAX);
            assert(kind != Product::Pyramid ==> total < usize::MAX);
        }
        // Takes the atoms out, and flattens the products of the same kind.
        let mut kept: Vec<Name<T>> = Vec::new();
        let mut count: usize = 0;
        proof {
            assert(all.take(0) =~= Seq::<NameView>::empty());
            assert(views(kept@) =~= gathered(kind, all.take(0)));
        }
        for base in it: bases.into_iter()
            invariant
                it.seq() == orig,
                all == views(orig),
                all.len() == orig.len(),
                total == units(kind, all),
                total <= usize::MAX,
                forall|j: int| 0 <= j < orig.len() ==> !(absorb(kind, #[trigger] all[j]) is Null),
                views(kept@) == gathered(kind, all.take(it.index() as int)),
                count == units(kind, all.take(it.index() as int)),
        {
            let ghost idx = it.index() as int;
            let ghost before = kept@;
            proof {
                lemma_views(orig);
                lemma_views(before);
                assert(base@ == all[idx]);
                lemma_gathered_step(kind, all, idx);
                lemma_units_prefix(kind, all, idx + 1);
            }
            match base.classify(kind) {
                Class::Units(u) => {
                    count = count + u;
                },
                Class::Splice => {
                    let mut inner = base.into_bases();
                    proof {
                        lemma_views_add(before, inner@);
                        lemma_views(inner@);
                    }
                    kept.append(&mut inner);
                },
                Class::Keep => {
                    proof {
                        lemma_views_push(before, base);
                    }
                    kept.push(base);
                },
                Class::Null => {},
            }
        }
        proof {
            assert(all.take(orig.len() as int) =~= all);
        }
        let ghost gathered_all = views(kept@);
        // Two units or more go back as one atom.
        if count >= 2 {
            let atom = Self::atom(kind, count);
            proof {
                lemma_views_push(kept@, atom);
                lemma_views(kept@);
            }
            kept.push(atom);
        }
        proof {
            lemma_views(kept@);
            assert forall|j: int| 0 <= j < kept@.len() implies measurable(
                #[trigger] views(kept@)[j],
            ) by {
                if j < gathered_all.len() {
                    assert(views(kept@)[j] == gathered_all[j]);
                }
            }
        }
        let ghost unsorted = views(kept@);
        let mut sorted = Self::sort_bases(kept);
        proof {
            lemma_sort_len(unsorted, by_name());
            lemma_views(sorted@);
        }
        let base = if sorted.len() == 0 {
            match kind {
                Product::Pyramid | Product::Comb => Name::Nullitope,
                Product::Prism | Product::Tegum => Name::Point,
            }
        } else if sorted.len() == 1 {
            sorted.remove(0)
        } else {
            Self::multi(kind, sorted)
        };
        assert(base@ == collapse(kind, sort(unsorted)));
        // A single unit is applied at the end.
        if count == 1 {
            proof {
                lemma_units_comb(all);
            }
            if base.is_multi(kind) {
                Self::wrap(kind, base)
            } else {
                proof {
                    lemma_gathered_height(kind, all);
                    if gathered_all.len() == 1 {
                        lemma_sort_single(gathered_all);
                        assert(base@ == gathered_all[0]);
                    }
                }
                Self::single(kind, base)
            }
        } else {
            base
        }
    }

    /// The pyramid, prism or tegum node over `base`.
    fn wrap(kind: Product, base: Self) -> (r: Self)
        requires
            kind != Product::Comb,
        ensures
            r@ == NameView::Single(kind, Box::new(base@)),
    {
        match kind {
            Product::Pyramid => Name::Pyramid(Box::new(base)),
            Product::Prism => Name::Prism(Box::new(base)),
            _ => Name::Tegum(Box::new(base)),
        }
    }

    /// The single pyramid, prism or tegum of `base`.
    fn single(kind: Product, base: Self) -> (r: Self)
        requires
            kind != Product::Comb,
            single_ready(kind, base@, T::regime()),
        ensures
            r@ == single_of(kind, base@, T::regime()),
        decreases 2 * height(base@), 1nat,
    {
        match kind {
            Product::Pyramid => base.pyramid(),
            Product::Prism => base.prism(),
            _ => base.tegum(),
        }
    }

    /// Builds a pyramid name from a given name.
    pub fn pyramid(self) -> (r: Self)
        requires
            single_ready(Product::Pyramid, self@, T::regime()),
        ensures
            r@ == pyramid_of(self@, T::regime()),
            valid(self@) ==> valid(r@),
        decreases 2 * height(self@), 0nat,
    {
        let ghost g = T::regime();
        proof {
            if valid(self@) {
                lemma_single_valid(Product::Pyramid, self@, g);
            }
        }
        match self {
            // Hardcoded cases.
            Name::Nullitope => Name::Point,
            Name::Point => Name::Dyad,
            Name::Dyad => Name::Triangle { regular: Self::default_regular() },
            // An irregular triangle becomes an irregular simplex, and a
            // regular one a triangular pyramid.
            Name::Triangle { regular } => {
                if regular.contains(&Regular::No) {
                    Self::simplex(Self::default_regular(), 4)
                } else {
                    Name::Pyramid(Box::new(Name::Triangle { regular }))
                }
            },
            // An irregular simplex becomes the next irregular simplex, and
            // a regular one a simplicial pyramid.
            Name::Simplex { regular, rank } => {
                if regular.contains(&Regular::No) {
                    Self::simplex(Self::default_regular(), rank + 1)
                } else {
                    Name::Pyramid(Box::new(Name::Simplex { regular, rank }))
                }
            },
            // A pyramid of a pyramid is folded into a single multipyramid.
            Name::Pyramid(base) => {
                let mut bases: Vec<Name<T>> = Vec::new();
                bases.push(Name::Dyad);
                bases.push(*base);
                proof {
                    lemma_views(bases@);
                    assert(views(bases@) =~= seq![double_unit(Product::Pyramid, g), base@]);
                    lemma_seq_height_pair(double_unit(Product::Pyramid, g), base@);
                }
                Self::product(Product::Pyramid, bases)
            },
            // A pyramid of a multipyramid is folded into it.
            Name::Multipyramid(mut bases) => {
                let ghost before = bases@;
                bases.push(Name::Point);
                proof {
                    lemma_views(before);
                    lemma_views_push(before, Name::<T>::Point);
                    lemma_views(bases@);
                    lemma_seq_height_push(views(before), single_unit(Product::Pyramid));
                }
                Self::product(Product::Pyramid, bases)
            },
            // The default is a pyramid of the base.
            other => Name::Pyramid(Box::new(other)),
        }
    }

    /// Builds a prism name from a given name.
    pub fn prism(self) -> (r: Self)
        requires
            single_ready(Product::Prism, self@, T::regime()),
        ensures
            r@ == prism_of(self@, T::regime()),
            valid(self@) ==> valid(r@),
        decreases 2 * height(self@), 0nat,
    {
        let ghost g = T::regime();
        proof {
            if valid(self@) {
                lemma_single_valid(Product::Prism, self@, g);
            }
        }
        match self {
            // Hardcoded cases.
            Name::Nullitope => Name::Nullitope,
            Name::Point => Name::Dyad,
            Name::Dyad => Self::rectangle(),
            Name::Quadrilateral { quad } => {
                if quad.is_or(&Quadrilateral::Orthodiagonal, false) {
                    Name::Prism(Box::new(Name::Quadrilateral { quad }))
                } else {
                    Name::Cuboid { regular: Self::default_regular() }
                }
            },
            // An irregular cuboid becomes an irregular hyperblock, and a
            // regular one a cubic prism.
            Name::Cuboid { regular } => {
                if regular.contains(&Regular::No) {
                    Self::hyperblock(Self::default_regular(), 5)
                } else {
                    Name::Prism(Box::new(Name::Cuboid { regular }))
                }
            },
            // An irregular hyperblock becomes the next irregular
            // hyperblock, and a regular one a hypercube prism.
            Name::Hyperblock { regular, rank } => {
                if regular.contains(&Regular::No) {
                    Self::hyperblock(Self::default_regular(), rank + 1)
                } else {
                    Name::Prism(Box::new(Name::Hyperblock { regular, rank }))
                }
            },
            // A prism of a prism is folded into a single multiprism.
            Name::Prism(base) => {
                let mut bases: Vec<Name<T>> = Vec::new();
                bases.push(Self::rectangle());
                bases.push(*base);
                proof {
                    lemma_views(bases@);
                    assert(views(bases@) =~= seq![double_unit(Product::Prism, g), base@]);
                    lemma_seq_height_pair(double_unit(Product::Prism, g), base@);
                }
                Self::product(Product::Prism, bases)
            },
            // A prism of a multiprism is folded into it.
            Name::Multiprism(mut bases) => {
                let ghost before = bases@;
                bases.push(Name::Dyad);
                proof {
                    lemma_views(before);
                    lemma_views_push(before, Name::<T>::Dyad);
                    lemma_views(bases@);
                    lemma_seq_height_push(views(before), single_unit(Product::Prism));
                }
                Self::product(Product::Prism, bases)
            },
            // The default is a prism of the base.
            other => Name::Prism(Box::new(other)),
        }
    }

    /// Builds a tegum name from a given name.
    pub fn tegum(self) -> (r: Self)
        requires
            single_ready(Product::Tegum, self@, T::regime()),
        ensures
            r@ == tegum_of(self@, T::regime()),
            valid(self@) ==> valid(r@),
        decreases 2 * height(self@), 0nat,
    {
        let ghost g = T::regime();
        proof {
            if valid(self@) {
                lemma_single_valid(Product::Tegum, self@, g);
            }
        }
        match self {
            // Hardcoded cases.
            Name::Nullitope => Name::Nullitope,
            Name::Point => Name::Dyad,
            Name::Dyad => Self::orthodiagonal(),
            Name::Quadrilateral { quad } => {
                if quad.is_or(&Quadrilateral::Rectangle, false) {
                    Name::Tegum(Box::new(Name::Quadrilateral { quad }))
                } else {
                    Self::orthoplex(Self::default_regular(), 4)
                }
            },
            // An irregular orthoplex becomes the next irregular orthoplex,
            // and a regular one an orthoplex tegum.
            Name::Orthoplex { regular, rank } => {
                if regular.contains(&Regular::No) {
                    Self::orthoplex(Self::default_regular(), rank + 1)
                } else {
                    Name::Tegum(Box::new(Name::Orthoplex { regular, rank }))
                }
            },
            // A tegum of a tegum is folded into a single multitegum.
            Name::Tegum(base) => {
                let mut bases: Vec<Name<T>> = Vec::new();
                bases.push(Self::orthodiagonal());
                bases.push(*base);
                proof {
                    lemma_views(bases@);
                    assert(views(bases@) =~= seq![double_unit(Product::Tegum, g), base@]);
                    lemma_seq_height_pair(double_unit(Product::Tegum, g), base@);
                }
                Self::product(Product::Tegum, bases)
            },
            // A tegum of a multitegum is folded into it.
            Name::Multitegum(mut bases) => {
                let ghost before = bases@;
                bases.push(Name::Dyad);
                proof {
                    lemma_views(before);
                    lemma_views_push(before, Name::<T>::Dyad);
                    lemma_views(bases@);
                    lemma_seq_height_push(views(before), single_unit(Product::Tegum));
                }
                Self::product(Product::Tegum, bases)
            },
            // The default is a tegum of the base.
            other => Name::Tegum(Box::new(other)),
        }
    }

    /// Makes a multipyramid out of a list of names.
    pub fn multipyramid(bases: Vec<Name<T>>) -> (r: Self)
        requires
            product_ready(Product::Pyramid, views(bases@), T::regime()),
        ensures
            r@ == multipyramid_of(views(bases@), T::regime()),
            (forall|i: int| 0 <= i < bases@.len() ==> valid(#[trigger] views(bases@)[i])) ==> valid(
                r@,
            ),
    {
        proof {
            lemma_views(bases@);
            if forall|i: int| 0 <= i < bases@.len() ==> valid(#[trigger] views(bases@)[i]) {
                lemma_product_valid(Product::Pyramid, views(bases@), T::regime());
            }
        }
        Self::product(Product::Pyramid, bases)
    }

    /// Makes a multiprism out of a list of names.
    pub fn multiprism(bases: Vec<Name<T>>) -> (r: Self)
        requires
            product_ready(Product::Prism, views(bases@), T::regime()),
        ensures
            r@ == multiprism_of(views(bases@), T::regime()),
            (forall|i: int| 0 <= i < bases@.len() ==> valid(#[trigger] views(bases@)[i])) ==> valid(
                r@,
            ),
    {
        proof {
            lemma_views(bases@);
            if forall|i: int| 0 <= i < bases@.len() ==> valid(#[trigger] views(bases@)[i]) {
                lemma_product_valid(Product::Prism, views(bases@), T::regime());
            }
        }
        Self::product(Product::Prism, bases)
    }

    /// Makes a multitegum out of a list of names.
    pub fn multitegum(bases: Vec<Name<T>>) -> (r: Self)
        requires
            product_ready(Product::Tegum, views(bases@), T::regime()),
        ensures
            r@ == multitegum_of(views(bases@), T::regime()),
            (forall|i: int| 0 <= i < bases@.len() ==> valid(#[trigger] views(bases@)[i])) ==> valid(
                r@,
            ),
    {
        proof {
            lemma_views(bases@);
            if forall|i: int| 0 <= i < bases@.len() ==> valid(#[trigger] views(bases@)[i]) {
                lemma_product_valid(Product::Tegum, views(bases@), T::regime());
            }
        }
        Self::product(Product::Tegum, bases)
    }

    /// Makes a multicomb out of a list of names.
    pub fn multicomb(bases: Vec<Name<T>>) -> (r: Self)
        requires
            product_ready(Product::Comb, views(bases@), T::regime()),
        ensures
            r@ == multicomb_of(views(bases@), T::regime()),
            (forall|i: int| 0 <= i < bases@.len() ==> valid(#[trigger] views(bases@)[i])) ==> valid(
                r@,
            ),
    {
        proof {
            lemma_views(bases@);
            if forall|i: int| 0 <= i < bases@.len() ==> valid(#[trigger] views(bases@)[i]) {
                lemma_product_valid(Product::Comb, views(bases@), T::regime());
            }
        }
        Self::product(Product::Comb, bases)
    }
}

} // verus!
