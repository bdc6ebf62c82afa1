//! What can be read off a name without touching the polytope: its rank, its
//! facet count, and whether it holds the invariants of its variants.
use crate::data::{NameData, Regular};
use crate::model::{
    counted, facet_count_of, facet_product, facet_sum, is_multi, NameView, Product, rank_of,
    rank_units, ranked, valid, weighted_facets,
};
use crate::name::{lemma_part_views, lemma_views, Name, part_views, views};
use crate::regime::NameType;
use vstd::arithmetic::power2::{lemma_pow2_strictly_increases, lemma_pow2_unfold, pow2};
use vstd::prelude::*;

verus! {

/// The rank units of a prefix are those of the shorter prefix and of the
/// name that follows it.
pub proof fn lemma_rank_units_step(s: Seq<NameView>, k: int)
    requires
        0 <= k < s.len(),
    ensures
        rank_units(s.take(k + 1)) == match (rank_units(s.take(k)), rank_of(s[k])) {
            (Some(u), Some(r)) => Some(u + r + 1),
            _ => None,
        },
{
    assert(s.take(k + 1).drop_last() =~= s.take(k));
    assert(s.take(k + 1).last() == s[k]);
}

/// Once the rank of one name of a list is unknown, the rank units of the
/// list are unknown.
pub proof fn lemma_rank_units_none(s: Seq<NameView>, k: int)
    requires
        0 <= k <= s.len(),
        rank_units(s.take(k)) is None,
    ensures
        rank_units(s) is None,
    decreases s.len() - k,
{
    if k == s.len() {
        assert(s.take(k) =~= s);
    } else {
        lemma_rank_units_step(s, k);
        lemma_rank_units_none(s, k + 1);
    }
}

/// The facet product of a prefix is that of the shorter prefix, taken by
/// the facet count of the name that follows it.
pub proof fn lemma_facet_product_step(s: Seq<NameView>, k: int)
    requires
        0 <= k < s.len(),
    ensures
        facet_product(s.take(k + 1)) == match (facet_product(s.take(k)), facet_count_of(s[k])) {
            (Some(p), Some(f)) => Some(p * f),
            _ => None,
        },
{
    assert(s.take(k + 1).drop_last() =~= s.take(k));
    assert(s.take(k + 1).last() == s[k]);
}

/// Once the facet count of one name of a list is unknown, the facet product
/// of the list is unknown.
pub proof fn lemma_facet_product_none(s: Seq<NameView>, k: int)
    requires
        0 <= k <= s.len(),
        facet_product(s.take(k)) is None,
    ensures
        facet_product(s) is None,
    decreases s.len() - k,
{
    if k == s.len() {
        assert(s.take(k) =~= s);
    } else {
        lemma_facet_product_step(s, k);
        lemma_facet_product_none(s, k + 1);
    }
}

/// The facet sum of a prefix is that of the shorter prefix, plus the facet
/// count of the name that follows it.
pub proof fn lemma_facet_sum_step(s: Seq<NameView>, k: int)
    requires
        0 <= k < s.len(),
    ensures
        facet_sum(s.take(k + 1)) == match (facet_sum(s.take(k)), facet_count_of(s[k])) {
            (Some(p), Some(f)) => Some(p + f),
            _ => None,
        },
{
    assert(s.take(k + 1).drop_last() =~= s.take(k));
    assert(s.take(k + 1).last() == s[k]);
}

/// Once the facet count of one name of a list is unknown, the facet sum of
/// the list is unknown.
pub proof fn lemma_facet_sum_none(s: Seq<NameView>, k: int)
    requires
        0 <= k <= s.len(),
        facet_sum(s.take(k)) is None,
    ensures
        facet_sum(s) is None,
    decreases s.len() - k,
{
    if k == s.len() {
        assert(s.take(k) =~= s);
    } else {
        lemma_facet_sum_step(s, k);
        lemma_facet_sum_none(s, k + 1);
    }
}

/// The weighted facet sum of a prefix is that of the shorter prefix, plus
/// the facet count of the component that follows it, taken by its
/// multiplicity.
pub proof fn lemma_weighted_facets_step(s: Seq<(nat, NameView)>, k: int)
    requires
        0 <= k < s.len(),
    ensures
        weighted_facets(s.take(k + 1)) == match (
            weighted_facets(s.take(k)),
            facet_count_of(s[k].1),
        ) {
            (Some(p), Some(f)) => Some(p + s[k].0 * f),
            _ => None,
        },
{
    assert(s.take(k + 1).drop_last() =~= s.take(k));
    assert(s.take(k + 1).last() == s[k]);
}

/// Once the facet count of one component of a list is unknown, the
/// weighted facet sum of the list is unknown.
pub proof fn lemma_weighted_facets_none(s: Seq<(nat, NameView)>, k: int)
    requires
        0 <= k <= s.len(),
        weighted_facets(s.take(k)) is None,
    ensures
        weighted_facets(s) is None,
    decreases s.len() - k,
{
    if k == s.len() {
        assert(s.take(k) =~= s);
    } else {
        lemma_weighted_facets_step(s, k);
        lemma_weighted_facets_none(s, k + 1);
    }
}

impl<T: NameType> Name<T> {
    /// The rank that is one above `rank`, where it fits the machine's word.
    fn rank_above(rank: Option<isize>) -> (r: Option<Option<isize>>)
        ensures
            match r {
                Some(Some(v)) => rank matches Some(b) && v == b + 1,
                Some(None) => rank is None,
                None => rank matches Some(b) && b + 1 > isize::MAX,
            },
    {
        match rank {
            Some(b) => {
                if b < isize::MAX {
                    Some(Some(b + 1))
                } else {
                    None
                }
            },
            None => Some(None),
        }
    }

    /// The rank that a rank field stands for, where it fits the machine's
    /// word.
    fn rank_field(rank: usize) -> (r: Option<Option<isize>>)
        ensures
            match r {
                Some(Some(v)) => v == rank - 1,
                Some(None) => false,
                None => rank - 1 > isize::MAX,
            },
    {
        let wide: i128 = rank as i128 - 1;
        if wide <= isize::MAX as i128 {
            Some(Some(wide as isize))
        } else {
            None
        }
    }

    /// The sum over `bases` of the rank plus one, where the rank of each
    /// fits the machine's word.
    fn checked_rank_units(bases: &Vec<Name<T>>) -> (r: Option<Option<i128>>)
        ensures
            match r {
                Some(u) => {
                    &&& forall|i: int| 0 <= i < bases@.len() ==> ranked(#[trigger] views(bases@)[i])
                    &&& match u {
                        Some(v) => rank_units(views(bases@)) == Some(v as int) && -(bases@.len()
                            * 0x7FFF_FFFF_FFFF_FFFF) <= v <= bases@.len() * 0x8000_0000_0000_0000,
                        None => rank_units(views(bases@)) is None,
                    }
                },
                None => exists|i: int|
                    0 <= i < bases@.len() && !ranked(#[trigger] views(bases@)[i]),
            },
        decreases bases,
    {
        let ghost all = views(bases@);
        let mut acc: i128 = 0;
        let mut known = true;
        let mut i: usize = 0;
        proof {
            lemma_views(bases@);
            assert(all.take(0) =~= Seq::<NameView>::empty());
        }
        while i < bases.len()
            invariant
                i <= bases.len(),
                all == views(bases@),
                all.len() == bases@.len(),
                forall|j: int| 0 <= j < i ==> ranked(#[trigger] all[j]),
                known ==> rank_units(all.take(i as int)) == Some(acc as int),
                !known ==> rank_units(all.take(i as int)) is None,
                -(i * 0x7FFF_FFFF_FFFF_FFFF) <= acc <= i * 0x8000_0000_0000_0000,
            decreases bases.len() - i,
        {
            proof {
                lemma_views(bases@);
                lemma_rank_units_step(all, i as int);
                assert(decreases_to!(bases => bases@[i as int]));
            }
            match bases[i].checked_rank() {
                Some(Some(r)) => {
                    if known {
                        acc = acc + r as i128 + 1;
                    }
                },
                Some(None) => {
                    known = false;
                },
                None => {
                    assert(!ranked(all[i as int]));
                    return None;
                },
            }
            i = i + 1;
        }
        assert(all.take(i as int) =~= all);
        if known {
            Some(Some(acc))
        } else {
            Some(None)
        }
    }

    /// The rank of the polytope that the name describes: `Some(None)` if the
    /// name does not tell it, and `None` if a rank in the name does not fit
    /// the machine's word.
    pub fn checked_rank(&self) -> (r: Option<Option<isize>>)
        ensures
            match r {
                Some(Some(v)) => ranked(self@) && rank_of(self@) == Some(v as int),
                Some(None) => ranked(self@) && rank_of(self@) is None,
                None => !ranked(self@),
            },
        decreases self,
    {
        match self {
            Name::Nullitope => Some(Some(-1)),
            Name::Point => Some(Some(0)),
            Name::Dyad => Some(Some(1)),
            Name::Triangle { .. } | Name::Quadrilateral { .. } | Name::Polygon { .. } => Some(
                Some(2),
            ),
            Name::Pyramid(base) | Name::Prism(base) | Name::Tegum(base) => {
                match base.checked_rank() {
                    Some(r) => Self::rank_above(r),
                    None => None,
                }
            },
            Name::Multipyramid(bases) | Name::Multicomb(bases) => {
                proof {
                    lemma_views(bases@);
                }
                let n = bases.len();
                match Self::checked_rank_units(bases) {
                    Some(Some(u)) => {
                        let wide: i128 = u - 1;
                        if wide < isize::MIN as i128 || wide > isize::MAX as i128 {
                            None
                        } else {
                            Some(Some(wide as isize))
                        }
                    },
                    Some(None) => Some(None),
                    None => None,
                }
            },
            Name::Multiprism(bases) | Name::Multitegum(bases) => {
                proof {
                    lemma_views(bases@);
                }
                let n = bases.len();
                match Self::checked_rank_units(bases) {
                    Some(Some(u)) => {
                        let wide: i128 = u - n as i128;
                        if wide < isize::MIN as i128 || wide > isize::MAX as i128 {
                            None
                        } else {
                            Some(Some(wide as isize))
                        }
                    },
                    Some(None) => Some(None),
                    None => None,
                }
            },
            Name::Antiprism { base } | Name::Antitegum { base, .. } => {
                match base.checked_rank() {
                    Some(r) => Self::rank_above(r),
                    None => None,
                }
            },
            Name::Petrial { base } | Name::Dual { base, .. } => base.checked_rank(),
            Name::Ditope { rank, .. }
            | Name::Hosotope { rank, .. }
            | Name::Simplex { rank, .. }
            | Name::Hyperblock { rank, .. }
            | Name::Orthoplex { rank, .. }
            | Name::Generic { rank, .. } => Self::rank_field(*rank),
            Name::Cuboid { .. } => Some(Some(3)),
            Name::Small(base) | Name::Great(base) | Name::Stellated(base) => base.checked_rank(),
            Name::Compound(parts) => {
                proof {
                    lemma_part_views(parts@);
                }
                if parts.len() > 0 {
                    proof {
                        assert(decreases_to!(self => self->Compound_0@[0].1));
                    }
                    parts[0].1.checked_rank()
                } else {
                    Some(None)
                }
            },
        }
    }

    /// The rank of the polytope that the name describes, or `None` if the
    /// name does not tell it. The nullitope has rank -1.
    pub fn rank(&self) -> (r: Option<isize>)
        requires
            ranked(self@),
        ensures
            match r {
                Some(v) => rank_of(self@) == Some(v as int),
                None => rank_of(self@) is None,
            },
    {
        match self.checked_rank() {
            Some(r) => r,
            None => None,
        }
    }

    /// Two to the power `e`, where it fits the machine's word.
    fn checked_power_of_two(e: usize) -> (r: Option<usize>)
        ensures
            match r {
                Some(v) => v == pow2(e as nat),
                None => pow2(e as nat) > usize::MAX,
            },
    {
        let mut acc: usize = 1;
        let mut k: usize = 0;
        proof {
            vstd::arithmetic::power2::lemma2_to64();
        }
        while k < e
            invariant
                k <= e,
                acc == pow2(k as nat),
            decreases e - k,
        {
            proof {
                lemma_pow2_unfold((k + 1) as nat);
                if k + 1 < e {
                    lemma_pow2_strictly_increases((k + 1) as nat, e as nat);
                }
            }
            match acc.checked_mul(2) {
                Some(v) => {
                    acc = v;
                },
                None => {
                    return None;
                },
            }
            k = k + 1;
        }
        Some(acc)
    }

    /// The product and the sum of the facet counts of `bases`, where the
    /// facet count of each fits the machine's word. The product is `None`
    /// where it does not fit, and so is the sum.
    fn checked_facets(bases: &Vec<Name<T>>) -> (r: Option<Option<(Option<usize>, Option<usize>)>>)
        ensures
            match r {
                Some(found) => {
                    &&& forall|i: int|
                        0 <= i < bases@.len() ==> counted(#[trigger] views(bases@)[i])
                    &&& match found {
                        Some((product, sum)) => {
                            &&& facet_product(views(bases@)) is Some
                            &&& facet_sum(views(bases@)) is Some
                            &&& match product {
                                Some(p) => facet_product(views(bases@)) == Some(p as nat),
                                None => facet_product(views(bases@))->0 > usize::MAX,
                            }
                            &&& match sum {
                                Some(p) => facet_sum(views(bases@)) == Some(p as nat),
                                None => facet_sum(views(bases@))->0 > usize::MAX,
                            }
                        },
                        None => facet_product(views(bases@)) is None && facet_sum(views(bases@))
                            is None,
                    }
                },
                None => exists|i: int|
                    0 <= i < bases@.len() && !counted(#[trigger] views(bases@)[i]),
            },
        decreases bases,
    {
        let ghost all = views(bases@);
        let mut known = true;
        let mut sum: u128 = 0;
        let mut acc: usize = 1;
        let mut zero = false;
        let mut over = false;
        let mut i: usize = 0;
        proof {
            lemma_views(bases@);
            assert(all.take(0) =~= Seq::<NameView>::empty());
        }
        while i < bases.len()
            invariant
                i <= bases.len(),
                all == views(bases@),
                all.len() == bases@.len(),
                forall|j: int| 0 <= j < i ==> counted(#[trigger] all[j]),
                known ==> facet_sum(all.take(i as int)) == Some(sum as nat),
                known ==> facet_product(all.take(i as int)) is Some,
                known && zero ==> facet_product(all.take(i as int)) == Some(0nat),
                known && !zero ==> facet_product(all.take(i as int))->0 >= 1,
                known && !zero && over ==> facet_product(all.take(i as int))->0 > usize::MAX,
                known && !zero && !over ==> facet_product(all.take(i as int)) == Some(acc as nat),
                !known ==> facet_sum(all.take(i as int)) is None,
                !known ==> facet_product(all.take(i as int)) is None,
                sum <= i * 0x1_0000_0000_0000_0000,
            decreases bases.len() - i,
        {
            proof {
                lemma_views(bases@);
                lemma_facet_product_step(all, i as int);
                lemma_facet_sum_step(all, i as int);
                assert(decreases_to!(bases => bases@[i as int]));
            }
            let ghost before = facet_product(all.take(i as int));
            match bases[i].checked_facet_count() {
                Some(Some(f)) => {
                    if known {
                        sum = sum + f as u128;
                        if f == 0 {
                            zero = true;
                            assert(before->0 * 0 == 0) by (nonlinear_arith);
                        } else if !zero {
                            assert(before->0 * f >= before->0) by (nonlinear_arith)
                                requires
                                    f >= 1,
                                    before->0 >= 0,
                            ;
                            if !over {
                                match acc.checked_mul(f) {
                                    Some(p) => {
                                        acc = p;
                                    },
                                    None => {
                                        over = true;
                                    },
                                }
                            }
                        } else {
                            assert(0 * f == 0) by (nonlinear_arith);
                        }
                    }
                },
                Some(None) => {
                    known = false;
                },
                None => {
                    assert(!counted(all[i as int]));
                    return None;
                },
            }
            i = i + 1;
        }
        assert(all.take(i as int) =~= all);
        if !known {
            return Some(None);
        }
        let product = if zero {
            Some(0)
        } else if over {
            None
        } else {
            Some(acc)
        };
        let total = if sum > usize::MAX as u128 {
            None
        } else {
            Some(sum as usize)
        };
        Some(Some((product, total)))
    }

    /// The sum of the facet counts of `parts`, each taken by its
    /// multiplicity, where the facet count of each fits the machine's word.
    /// The sum is `None` where it does not fit.
    fn checked_weighted_facets(parts: &Vec<(usize, Name<T>)>) -> (r: Option<
        Option<Option<usize>>,
    >)
        ensures
            match r {
                Some(found) => {
                    &&& forall|i: int|
                        0 <= i < parts@.len() ==> counted((#[trigger] part_views(parts@)[i]).1)
                    &&& match found {
                        Some(Some(p)) => weighted_facets(part_views(parts@)) == Some(p as nat),
                        Some(None) => weighted_facets(part_views(parts@)) is Some
                            && weighted_facets(part_views(parts@))->0 > usize::MAX,
                        None => weighted_facets(part_views(parts@)) is None,
                    }
                },
                None => exists|i: int|
                    0 <= i < parts@.len() && !counted((#[trigger] part_views(parts@)[i]).1),
            },
        decreases parts,
    {
        let ghost all = part_views(parts@);
        let mut known = true;
        let mut acc: usize = 0;
        let mut over = false;
        let mut i: usize = 0;
        proof {
            lemma_part_views(parts@);
            assert(all.take(0) =~= Seq::<(nat, NameView)>::empty());
        }
        while i < parts.len()
            invariant
                i <= parts.len(),
                all == part_views(parts@),
                all.len() == parts@.len(),
                forall|j: int| 0 <= j < i ==> counted((#[trigger] all[j]).1),
                known ==> weighted_facets(all.take(i as int)) is Some,
                known && over ==> weighted_facets(all.take(i as int))->0 > usize::MAX,
                known && !over ==> weighted_facets(all.take(i as int)) == Some(acc as nat),
                !known ==> weighted_facets(all.take(i as int)) is None,
            decreases parts.len() - i,
        {
            proof {
                lemma_part_views(parts@);
                lemma_weighted_facets_step(all, i as int);
                assert(decreases_to!(parts => parts@[i as int].1));
            }
            let rep = parts[i].0;
            match parts[i].1.checked_facet_count() {
                Some(Some(f)) => {
                    assert(rep * f >= 0) by (nonlinear_arith)
                        requires
                            rep >= 0,
                            f >= 0,
                    ;
                    if known && !over {
                        match rep.checked_mul(f) {
                            Some(t) => {
                                match acc.checked_add(t) {
                                    Some(p) => {
                                        acc = p;
                                    },
                                    None => {
                                        over = true;
                                    },
                                }
                            },
                            None => {
                                over = true;
                            },
                        }
                    }
                },
                Some(None) => {
                    known = false;
                },
                None => {
                    assert(!counted(all[i as int].1));
                    return None;
                },
            }
            i = i + 1;
        }
        assert(all.take(i as int) =~= all);
        if !known {
            Some(None)
        } else if over {
            Some(Some(None))
        } else {
            Some(Some(Some(acc)))
        }
    }

    /// The number of facets of the polytope that the name describes:
    /// `Some(None)` if the name does not tell it, and `None` if a facet
    /// count in the name does not fit the machine's word. The name of a
    /// dual never tells it.
    pub fn checked_facet_count(&self) -> (r: Option<Option<usize>>)
        ensures
            match r {
                Some(Some(v)) => counted(self@) && facet_count_of(self@) == Some(v as nat),
                Some(None) => counted(self@) && facet_count_of(self@) is None,
                None => !counted(self@),
            },
        decreases self,
    {
        match self {
            Name::Nullitope => Some(Some(0)),
            Name::Point => Some(Some(1)),
            Name::Dyad => Some(Some(2)),
            Name::Triangle { .. } => Some(Some(3)),
            Name::Quadrilateral { .. } => Some(Some(4)),
            Name::Polygon { n, .. } => Some(Some(*n)),
            Name::Generic { facet_count, .. } => Some(Some(*facet_count)),
            Name::Simplex { rank, .. } => Some(Some(*rank)),
            Name::Cuboid { .. } => Some(Some(6)),
            Name::Hyperblock { rank, .. } => {
                if *rank >= 1 {
                    match (*rank - 1).checked_mul(2) {
                        Some(f) => Some(Some(f)),
                        None => None,
                    }
                } else {
                    Some(Some(0))
                }
            },
            Name::Orthoplex { rank, .. } => {
                if *rank >= 1 {
                    match Self::checked_power_of_two(*rank - 1) {
                        Some(f) => Some(Some(f)),
                        None => None,
                    }
                } else {
                    Some(Some(1))
                }
            },
            Name::Pyramid(base) => {
                match base.checked_facet_count() {
                    Some(Some(f)) => match f.checked_add(1) {
                        Some(v) => Some(Some(v)),
                        None => None,
                    },
                    Some(None) => Some(None),
                    None => None,
                }
            },
            Name::Prism(base) => {
                match base.checked_facet_count() {
                    Some(Some(f)) => match f.checked_add(1) {
                        Some(v) => match v.checked_mul(2) {
                            Some(w) => Some(Some(w)),
                            None => None,
                        },
                        None => None,
                    },
                    Some(None) => Some(None),
                    None => None,
                }
            },
            Name::Tegum(base) => {
                match base.checked_facet_count() {
                    Some(Some(f)) => match f.checked_mul(2) {
                        Some(v) => Some(Some(v)),
                        None => None,
                    },
                    Some(None) => Some(None),
                    None => None,
                }
            },
            Name::Multipyramid(bases) | Name::Multitegum(bases) => {
                proof {
                    lemma_views(bases@);
                }
                match Self::checked_facets(bases) {
                    Some(Some((Some(product), _))) => Some(Some(product)),
                    Some(Some((None, _))) => None,
                    Some(None) => Some(None),
                    None => None,
                }
            },
            Name::Multiprism(bases) | Name::Multicomb(bases) => {
                proof {
                    lemma_views(bases@);
                }
                match Self::checked_facets(bases) {
                    Some(Some((_, Some(sum)))) => Some(Some(sum)),
                    Some(Some((_, None))) => None,
                    Some(None) => Some(None),
                    None => None,
                }
            },
            Name::Compound(parts) => {
                proof {
                    lemma_part_views(parts@);
                }
                match Self::checked_weighted_facets(parts) {
                    Some(Some(Some(sum))) => Some(Some(sum)),
                    Some(Some(None)) => None,
                    Some(None) => Some(None),
                    None => None,
                }
            },
            _ => Some(None),
        }
    }

    /// The number of facets of the polytope that the name describes, or
    /// `None` if the name does not tell it. The name of a dual never does.
    pub fn facet_count(&self) -> (r: Option<usize>)
        requires
            counted(self@),
        ensures
            match r {
                Some(v) => facet_count_of(self@) == Some(v as nat),
                None => facet_count_of(self@) is None,
            },
    {
        match self.checked_facet_count() {
            Some(r) => r,
            None => None,
        }
    }

    /// Whether the name is a product of the given kind.
    pub fn is_multi(&self, kind: Product) -> (b: bool)
        ensures
            b == is_multi(kind, self@),
    {
        match (self, kind) {
            (Name::Multipyramid(_), Product::Pyramid) => true,
            (Name::Multiprism(_), Product::Prism) => true,
            (Name::Multitegum(_), Product::Tegum) => true,
            (Name::Multicomb(_), Product::Comb) => true,
            _ => false,
        }
    }

    /// Whether `bases` can be the bases of a valid product of the given
    /// kind.
    fn bases_valid(bases: &Vec<Name<T>>, kind: Product) -> (b: bool)
        ensures
            b == (views(bases@).len() >= 2 && forall|i: int|
                0 <= i < views(bases@).len() ==> !is_multi(kind, #[trigger] views(bases@)[i])
                    && valid(views(bases@)[i])),
        decreases bases,
    {
        proof {
            lemma_views(bases@);
        }
        if bases.len() < 2 {
            return false;
        }
        let mut i: usize = 0;
        while i < bases.len()
            invariant
                i <= bases.len(),
                views(bases@).len() == bases@.len(),
                forall|j: int|
                    0 <= j < i ==> !is_multi(kind, #[trigger] views(bases@)[j]) && valid(
                        views(bases@)[j],
                    ),
            decreases bases.len() - i,
        {
            proof {
                lemma_views(bases@);
                assert(decreases_to!(bases => bases@[i as int]));
            }
            if bases[i].is_multi(kind) || !bases[i].is_valid() {
                assert(is_multi(kind, views(bases@)[i as int]) || !valid(views(bases@)[i as int]));
                return false;
            }
            i = i + 1;
        }
        true
    }

    /// Whether `parts` can be the components of a valid compound.
    fn parts_valid(parts: &Vec<(usize, Name<T>)>) -> (b: bool)
        ensures
            b == valid(NameView::Compound(part_views(parts@))),
        decreases parts,
    {
        let ghost all = part_views(parts@);
        proof {
            lemma_part_views(parts@);
        }
        if parts.len() < 1 {
            return false;
        }
        let mut i: usize = 0;
        while i < parts.len()
            invariant
                i <= parts.len(),
                all == part_views(parts@),
                all.len() == parts@.len(),
                forall|j: int|
                    0 <= j < i ==> !((#[trigger] all[j]).1 is Compound) && valid(all[j].1),
                forall|j: int, k: int|
                    0 <= j < k < i ==> (#[trigger] all[j]).1 != (#[trigger] all[k]).1,
            decreases parts.len() - i,
        {
            proof {
                lemma_part_views(parts@);
                assert(decreases_to!(parts => parts@[i as int].1));
            }
            let is_compound = match &parts[i].1 {
                Name::Compound(_) => true,
                _ => false,
            };
            if is_compound || !parts[i].1.is_valid() {
                assert(all[i as int].1 is Compound || !valid(all[i as int].1));
                return false;
            }
            let mut j: usize = 0;
            while j < i
                invariant
                    j <= i,
                    i < parts.len(),
                    all == part_views(parts@),
                    all.len() == parts@.len(),
                    forall|k: int| 0 <= k < j ==> (#[trigger] all[k]).1 != all[i as int].1,
                decreases i - j,
            {
                proof {
                    lemma_part_views(parts@);
                }
                if parts[j].1.same(&parts[i].1) {
                    assert(all[j as int].1 == all[i as int].1);
                    return false;
                }
                j = j + 1;
            }
            i = i + 1;
        }
        true
    }

    /// Determines whether a name is valid, that is, whether all of the
    /// conditions on its variants hold, in the name itself and in every
    /// name below it.
    pub fn is_valid(&self) -> (b: bool)
        ensures
            b == valid(self@),
        decreases self,
    {
        match self {
            // Polygons must not be interpretable as triangles or squares.
            Name::Polygon { regular, n } => *n != 3 && !(*n == 4 && !regular.is_or(
                &Regular::No,
                false,
            )),
            // Simplices and orthoplices start at the tetrahedron and the
            // octahedron.
            Name::Simplex { rank, .. } | Name::Orthoplex { rank, .. } => *rank >= 4,
            // Hyperblocks start at the tesseract, since cuboids are a
            // separate thing.
            Name::Hyperblock { rank, .. } => *rank >= 5,
            Name::Generic { facet_count, rank } => *facet_count >= 2 && *rank >= 4 && *rank
                <= 21,
            Name::Pyramid(base) | Name::Prism(base) | Name::Tegum(base) => base.is_valid(),
            // Products must contain at least two bases and nothing nested.
            Name::Multipyramid(bases) => Self::bases_valid(bases, Product::Pyramid),
            Name::Multiprism(bases) => Self::bases_valid(bases, Product::Prism),
            Name::Multitegum(bases) => Self::bases_valid(bases, Product::Tegum),
            Name::Multicomb(bases) => Self::bases_valid(bases, Product::Comb),
            Name::Antiprism { base }
            | Name::Antitegum { base, .. }
            | Name::Petrial { base }
            | Name::Dual { base, .. }
            | Name::Ditope { base, .. }
            | Name::Hosotope { base, .. } => base.is_valid(),
            Name::Small(base) | Name::Great(base) | Name::Stellated(base) => base.is_valid(),
            Name::Compound(parts) => Self::parts_valid(parts),
            _ => true,
        }
    }
}

} // verus!
