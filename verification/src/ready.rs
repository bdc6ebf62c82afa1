//! Whether a pyramid, prism, tegum or product can be made within the
//! limits of the machine. The constructors of [`crate::product`] ask for
//! it; the functions of this module tell it of any names.
use crate::algebra::{
    Absorb, absorb, atom_of, double_unit, gathered, lemma_gathered_height, lemma_seq_height_pair,
    lemma_seq_height_push, nullified, product_ready, single_leaf, single_ready, single_unit, units,
};
use crate::data::{NameData, Regular};
use crate::model::{fits, height, is_multi, measurable, NameView, Product, seq_height};
use crate::name::{lemma_views, Name, views};
use crate::product::{Class, lemma_gathered_step, lemma_units_comb, lemma_units_prefix};
use crate::regime::NameType;
use vstd::prelude::*;

verus! {

/// The views of a list of names that are held by reference.
pub open spec fn ref_views<T: NameType>(s: Seq<&Name<T>>) -> Seq<NameView> {
    Seq::new(s.len(), |i: int| s[i]@)
}

/// The bases that a product has gathered so far, as far as it matters to
/// what follows: none, one, or more.
pub enum Kept<'a, T: NameType> {
    /// No base.
    Zero,
    /// One base.
    One(&'a Name<T>),
    /// Two bases or more.
    Many,
}

/// Whether `kept` tells what `bases` holds.
pub open spec fn kept_of<T: NameType>(kept: Kept<'_, T>, bases: Seq<NameView>) -> bool {
    match kept {
        Kept::Zero => bases.len() == 0,
        Kept::One(x) => bases.len() == 1 && bases[0] == x@,
        Kept::Many => bases.len() >= 2,
    }
}

/// What a product gathers from a prefix of a list stands at the head of
/// what it gathers from the list.
pub proof fn lemma_gathered_prefix(kind: Product, s: Seq<NameView>, k: int)
    requires
        0 <= k <= s.len(),
    ensures
        gathered(kind, s.take(k)).len() <= gathered(kind, s).len(),
        forall|j: int|
            0 <= j < gathered(kind, s.take(k)).len() ==> gathered(kind, s)[j] == (
            #[trigger] gathered(kind, s.take(k))[j]),
    decreases s.len() - k,
{
    if k == s.len() {
        assert(s.take(k) =~= s);
    } else {
        lemma_gathered_step(kind, s, k);
        lemma_gathered_prefix(kind, s, k + 1);
        let short = gathered(kind, s.take(k));
        let long = gathered(kind, s.take(k + 1));
        assert forall|j: int| 0 <= j < short.len() implies gathered(kind, s)[j] == (
        #[trigger] short[j]) by {
            assert(long[j] == short[j]);
        }
    }
}

/// A product that counts more units than the machine's word holds cannot
/// be made within the limits of the machine.
pub proof fn lemma_too_many_units<T: NameType>(kind: Product, bases: Seq<NameView>)
    requires
        !nullified(kind, bases),
        units(kind, bases) > usize::MAX || (kind != Product::Pyramid && units(kind, bases)
            >= usize::MAX),
    ensures
        !product_ready(kind, bases, T::regime()),
{
    lemma_units_comb(bases);
}

impl<'a, T: NameType> Kept<'a, T> {
    /// What is gathered once one more base is.
    fn and(self, base: &'a Name<T>) -> (r: Self)
        ensures
            forall|s: Seq<NameView>| kept_of(self, s) ==> kept_of(r, #[trigger] s.push(base@)),
    {
        match self {
            Kept::Zero => Kept::One(base),
            _ => Kept::Many,
        }
    }
}

impl<T: NameType> Name<T> {
    /// The bases of a product.
    fn bases_ref(&self) -> (r: &Vec<Name<T>>)
        requires
            self@ is Multi,
        ensures
            views(r@) == self@->Multi_1,
    {
        match self {
            Name::Multipyramid(bases) => bases,
            Name::Multiprism(bases) => bases,
            Name::Multitegum(bases) => bases,
            Name::Multicomb(bases) => bases,
            _ => vstd::pervasive::unreached(),
        }
    }

    /// The name that a pyramid of a pyramid, a prism of a prism or a tegum
    /// of a tegum brings into the product.
    fn double(kind: Product) -> (r: Self)
        ensures
            r@ == double_unit(kind, T::regime()),
    {
        match kind {
            Product::Pyramid => Name::Dyad,
            Product::Prism => Self::rectangle(),
            Product::Tegum => Self::orthodiagonal(),
            Product::Comb => Name::Nullitope,
        }
    }

    /// The name that stands for one unit of a product.
    fn unit(kind: Product) -> (r: Self)
        ensures
            r@ == single_unit(kind),
    {
        match kind {
            Product::Pyramid => Name::Point,
            Product::Prism => Name::Dyad,
            Product::Tegum => Name::Dyad,
            Product::Comb => Name::Nullitope,
        }
    }

    /// Whether the product of the given kind of `bases` can be made within
    /// the limits of the machine.
    fn ready(kind: Product, bases: &Vec<&Name<T>>) -> (b: bool)
        ensures
            b == product_ready(kind, ref_views(bases@), T::regime()),
        decreases 2 * seq_height(ref_views(bases@)) + 1, 0nat,
    {
        let ghost all = ref_views(bases@);
        let ghost g = T::regime();
        // A nullitope brings the product to nothing.
        let mut i: usize = 0;
        while i < bases.len()
            invariant
                i <= bases.len(),
                all == ref_views(bases@),
                forall|j: int| 0 <= j < i ==> !(absorb(kind, #[trigger] all[j]) is Null),
            decreases bases.len() - i,
        {
            if let Class::Null = bases[i].classify(kind) {
                assert(absorb(kind, all[i as int]) is Null);
                return true;
            }
            i = i + 1;
        }
        assert(!nullified(kind, all));
        let mut count: usize = 0;
        let mut kept: Kept<'_, T> = Kept::Zero;
        let mut i: usize = 0;
        proof {
            assert(all.take(0) =~= Seq::<NameView>::empty());
        }
        while i < bases.len()
            invariant
                i <= bases.len(),
                all == ref_views(bases@),
                g == T::regime(),
                !nullified(kind, all),
                count == units(kind, all.take(i as int)),
                kept_of(kept, gathered(kind, all.take(i as int))),
                forall|j: int|
                    0 <= j < gathered(kind, all.take(i as int)).len() ==> measurable(
                        #[trigger] gathered(kind, all.take(i as int))[j],
                    ),
            decreases bases.len() - i,
        {
            let base = bases[i];
            let ghost before = gathered(kind, all.take(i as int));
            let ghost after = gathered(kind, all.take(i + 1));
            proof {
                assert(base@ == all[i as int]);
                lemma_gathered_step(kind, all, i as int);
                lemma_units_prefix(kind, all, i + 1);
                lemma_gathered_prefix(kind, all, i + 1);
            }
            match base.classify(kind) {
                Class::Units(u) => {
                    match count.checked_add(u) {
                        Some(c) => {
                            count = c;
                        },
                        None => {
                            proof {
                                lemma_too_many_units::<T>(kind, all);
                            }
                            return false;
                        },
                    }
                },
                Class::Keep => {
                    if !base.is_measurable() {
                        assert(after[before.len() as int] == base@);
                        return false;
                    }
                    kept = kept.and(base);
                    assert forall|j: int| 0 <= j < after.len() implies measurable(
                        #[trigger] after[j],
                    ) by {
                        if j < before.len() {
                            assert(after[j] == before[j]);
                        }
                    }
                },
                Class::Splice => {
                    let inner = base.bases_ref();
                    let ghost spliced = views(inner@);
                    proof {
                        lemma_views(inner@);
                        assert(after == before + spliced);
                    }
                    let mut k: usize = 0;
                    while k < inner.len()
                        invariant
                            k <= inner.len(),
                            all == ref_views(bases@),
                            spliced == views(inner@),
                            spliced.len() == inner@.len(),
                            after == before + spliced,
                            kept_of(kept, before + spliced.take(k as int)),
                            forall|j: int| 0 <= j < k ==> measurable(#[trigger] spliced[j]),
                            !nullified(kind, all),
                            forall|j: int|
                                0 <= j < after.len() ==> gathered(kind, all)[j] == (
                                #[trigger] after[j]),
                            after.len() <= gathered(kind, all).len(),
                        decreases inner.len() - k,
                    {
                        proof {
                            lemma_views(inner@);
                        }
                        if !inner[k].is_measurable() {
                            assert(after[before.len() + k] == spliced[k as int]);
                            assert(!measurable(gathered(kind, all)[before.len() + k]));
                            return false;
                        }
                        let ghost so_far = before + spliced.take(k as int);
                        kept = kept.and(&inner[k]);
                        proof {
                            assert(so_far.push(inner@[k as int]@) =~= before + spliced.take(
                                k + 1,
                            ));
                        }
                        k = k + 1;
                    }
                    proof {
                        assert(spliced.take(inner@.len() as int) =~= spliced);
                        assert forall|j: int| 0 <= j < after.len() implies measurable(
                            #[trigger] after[j],
                        ) by {
                            if j < before.len() {
                                assert(after[j] == before[j]);
                            } else {
                                assert(after[j] == spliced[j - before.len()]);
                            }
                        }
                    }
                },
                Class::Null => {},
            }
            i = i + 1;
        }
        assert(all.take(i as int) =~= all);
        if count >= 2 {
            if !matches!(kind, Product::Pyramid) && count == usize::MAX {
                proof {
                    lemma_too_many_units::<T>(kind, all);
                }
                return false;
            }
            proof {
                lemma_units_comb(all);
            }
            let atom = Self::atom(kind, count);
            return atom.is_measurable();
        }
        if count == 1 {
            if let Kept::One(x) = kept {
                if !x.is_multi(kind) {
                    proof {
                        lemma_gathered_height(kind, all);
                    }
                    return x.can_single(kind);
                }
            }
        }
        true
    }

    /// Whether the product of the given kind of `bases` can be made within
    /// the limits of the machine.
    pub fn can_multiply(kind: Product, bases: &Vec<Name<T>>) -> (b: bool)
        ensures
            b == product_ready(kind, views(bases@), T::regime()),
    {
        let mut refs: Vec<&Name<T>> = Vec::new();
        let mut i: usize = 0;
        proof {
            lemma_views(bases@);
        }
        while i < bases.len()
            invariant
                i <= bases.len(),
                refs@.len() == i,
                forall|j: int| 0 <= j < i ==> (#[trigger] refs@[j])@ == bases@[j]@,
            decreases bases.len() - i,
        {
            refs.push(&bases[i]);
            i = i + 1;
        }
        proof {
            lemma_views(bases@);
            assert(ref_views(refs@) =~= views(bases@));
        }
        Self::ready(kind, &refs)
    }

    /// Whether a single pyramid, prism or tegum of the name can be made
    /// within the limits of the machine.
    pub fn can_single(&self, kind: Product) -> (b: bool)
        ensures
            b == single_ready(kind, self@, T::regime()),
        decreases 2 * height(self@), 1nat,
    {
        let ghost g = T::regime();
        proof {
            self.lemma_well_formed();
        }
        match (kind, self) {
            (Product::Pyramid, Name::Pyramid(base))
            | (Product::Prism, Name::Prism(base))
            | (Product::Tegum, Name::Tegum(base)) => {
                let double = Self::double(kind);
                let mut refs: Vec<&Name<T>> = Vec::new();
                refs.push(&double);
                refs.push(&**base);
                proof {
                    assert(ref_views(refs@) =~= seq![double_unit(kind, g), base@]);
                    lemma_seq_height_pair(double_unit(kind, g), base@);
                }
                Self::ready(kind, &refs)
            },
            (Product::Pyramid, Name::Multipyramid(bases))
            | (Product::Prism, Name::Multiprism(bases))
            | (Product::Tegum, Name::Multitegum(bases)) => {
                let unit = Self::unit(kind);
                let mut refs: Vec<&Name<T>> = Vec::new();
                let mut i: usize = 0;
                proof {
                    lemma_views(bases@);
                }
                while i < bases.len()
                    invariant
                        i <= bases.len(),
                        refs@.len() == i,
                        forall|j: int| 0 <= j < i ==> (#[trigger] refs@[j])@ == bases@[j]@,
                    decreases bases.len() - i,
                {
                    refs.push(&bases[i]);
                    i = i + 1;
                }
                refs.push(&unit);
                proof {
                    lemma_views(bases@);
                    assert(ref_views(refs@) =~= views(bases@).push(single_unit(kind)));
                    lemma_seq_height_push(views(bases@), single_unit(kind));
                }
                Self::ready(kind, &refs)
            },
            (Product::Pyramid, Name::Simplex { regular, rank })
            | (Product::Prism, Name::Hyperblock { regular, rank })
            | (Product::Tegum, Name::Orthoplex { regular, rank }) => {
                if regular.contains(&Regular::No) {
                    *rank < usize::MAX
                } else {
                    true
                }
            },
            _ => true,
        }
    }
}

} // verus!
