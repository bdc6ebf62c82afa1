//! What products and single pyramids, prisms and tegums keep: they make
//! valid names of valid names, their rank is the sum that the product stands
//! for, and they can be made within the limits of the machine wherever what
//! they make is within them.
use crate::algebra::{
    Absorb, absorb, atom_of, collapse, double_unit, gathered, lemma_gathered_height,
    lemma_seq_height_pair, lemma_seq_height_push, nullified, product_of, product_ready, single_of,
    single_ready, single_unit, units,
};
use crate::model::{
    counted, fits, height, is_multi, measurable, NameView, Product, rank_of, rank_units, ranked,
    seq_height, valid,
};
use crate::order::{
    by_name, lemma_position_bound, lemma_sort_all, lemma_sort_len, lemma_sort_push,
    lemma_sort_single, position, sort, sort_by,
};
use crate::regime::Regime;
use vstd::prelude::*;

verus! {

/// Whether a name can stand among the bases of a valid product of the
/// given kind: it is valid, and no product of that kind.
pub open spec fn fit_base(kind: Product) -> spec_fn(NameView) -> bool {
    |n: NameView| valid(n) && !is_multi(kind, n)
}

/// The bases that a product gathers from valid names can stand among the
/// bases of a valid product.
pub proof fn lemma_gathered_fit(kind: Product, bases: Seq<NameView>)
    requires
        forall|i: int| 0 <= i < bases.len() ==> valid(#[trigger] bases[i]),
    ensures
        forall|i: int|
            0 <= i < gathered(kind, bases).len() ==> fit_base(kind)(
                #[trigger] gathered(kind, bases)[i],
            ),
    decreases bases.len(),
{
    if bases.len() > 0 {
        let front = bases.drop_last();
        let last = bases.last();
        assert forall|i: int| 0 <= i < front.len() implies valid(#[trigger] front[i]) by {
            assert(front[i] == bases[i]);
        }
        lemma_gathered_fit(kind, front);
        let rest = gathered(kind, front);
        assert(valid(bases[bases.len() - 1]));
        match absorb(kind, last) {
            Absorb::Splice(inner) => {
                assert(last == NameView::Multi(kind, inner));
                assert forall|i: int| 0 <= i < (rest + inner).len() implies fit_base(kind)(
                    #[trigger] (rest + inner)[i],
                ) by {
                    if i >= rest.len() {
                        assert((rest + inner)[i] == inner[i - rest.len()]);
                        assert(valid(inner[i - rest.len()]));
                        assert(!is_multi(kind, inner[i - rest.len()]));
                    } else {
                        assert((rest + inner)[i] == rest[i]);
                    }
                }
            },
            Absorb::Keep => {
                assert forall|i: int| 0 <= i < rest.push(last).len() implies fit_base(kind)(
                    #[trigger] rest.push(last)[i],
                ) by {
                    if i < rest.len() {
                        assert(rest.push(last)[i] == rest[i]);
                    }
                }
            },
            _ => {},
        }
    }
}

/// The atom that stands for two units or more is valid, and no product.
pub proof fn lemma_atom_fit(kind: Product, count: nat, g: Regime)
    requires
        count >= 2,
    ensures
        fit_base(kind)(atom_of(kind, count, g)),
{
}

/// The bases of a product, sorted and collapsed, make a valid name where
/// each of them can stand among the bases of a valid product.
pub proof fn lemma_collapse_valid(kind: Product, bases: Seq<NameView>)
    requires
        forall|i: int| 0 <= i < bases.len() ==> fit_base(kind)(#[trigger] bases[i]),
    ensures
        valid(collapse(kind, sort(bases))),
{
    lemma_sort_all(bases, by_name(), fit_base(kind));
    let sorted = sort(bases);
    if sorted.len() == 1 {
        assert(fit_base(kind)(sorted[0]));
    } else if sorted.len() >= 2 {
        assert forall|i: int| 0 <= i < sorted.len() implies valid(#[trigger] sorted[i])
            && !is_multi(kind, sorted[i]) by {
            assert(fit_base(kind)(sorted[i]));
        }
    }
}

/// A single pyramid, prism or tegum of a valid name is a valid name.
pub proof fn lemma_single_valid(kind: Product, n: NameView, g: Regime)
    requires
        valid(n),
    ensures
        valid(single_of(kind, n, g)),
    decreases 2 * height(n), 0nat,
{
    match n {
        NameView::Single(k, base) => {
            if k == kind && kind != Product::Comb {
                let bases = seq![double_unit(kind, g), *base];
                lemma_seq_height_pair(double_unit(kind, g), *base);
                lemma_product_valid(kind, bases, g);
            }
        },
        NameView::Multi(k, bases) => {
            if k == kind && kind != Product::Comb {
                let more = bases.push(single_unit(kind));
                lemma_seq_height_push(bases, single_unit(kind));
                assert forall|i: int| 0 <= i < more.len() implies valid(#[trigger] more[i]) by {
                    if i < bases.len() {
                        assert(more[i] == bases[i]);
                    }
                }
                lemma_product_valid(kind, more, g);
            }
        },
        _ => {},
    }
}

/// A product of valid names is a valid name.
pub proof fn lemma_product_valid(kind: Product, bases: Seq<NameView>, g: Regime)
    requires
        forall|i: int| 0 <= i < bases.len() ==> valid(#[trigger] bases[i]),
    ensures
        valid(product_of(kind, bases, g)),
    decreases 2 * seq_height(bases) + 1, 0nat,
{
    let kept = gathered(kind, bases);
    let count = units(kind, bases);
    lemma_gathered_fit(kind, bases);
    if nullified(kind, bases) {
    } else if count == 1 {
        lemma_collapse_valid(kind, kept);
        let base = collapse(kind, sort(kept));
        if is_multi(kind, base) {
        } else if kept.len() == 1 {
            lemma_gathered_height(kind, bases);
            lemma_sort_single(kept);
            assert(fit_base(kind)(kept[0]));
            lemma_single_valid(kind, kept[0], g);
        } else {
            lemma_sort_len(kept, by_name());
        }
    } else if count >= 2 {
        let atom = atom_of(kind, count, g);
        lemma_atom_fit(kind, count, g);
        let all = kept.push(atom);
        assert forall|i: int| 0 <= i < all.len() implies fit_base(kind)(#[trigger] all[i]) by {
            if i < kept.len() {
                assert(all[i] == kept[i]);
            }
        }
        lemma_collapse_valid(kind, all);
    } else {
        lemma_collapse_valid(kind, kept);
    }
}

/// Whether no nullitope occurs in a name.
pub open spec fn nullitope_free(n: NameView) -> bool
    decreases n,
{
    match n {
        NameView::Nullitope => false,
        NameView::Single(_, base) => nullitope_free(*base),
        NameView::Multi(_, bases) => forall|i: int|
            0 <= i < bases.len() ==> nullitope_free(#[trigger] bases[i]),
        NameView::Antiprism { base } => nullitope_free(*base),
        NameView::Antitegum { base, .. } => nullitope_free(*base),
        NameView::Petrial { base } => nullitope_free(*base),
        NameView::Dual { base, .. } => nullitope_free(*base),
        NameView::Ditope { base, .. } => nullitope_free(*base),
        NameView::Hosotope { base, .. } => nullitope_free(*base),
        NameView::Small(base) => nullitope_free(*base),
        NameView::Great(base) => nullitope_free(*base),
        NameView::Stellated(base) => nullitope_free(*base),
        NameView::Compound(parts) => forall|i: int|
            0 <= i < parts.len() ==> nullitope_free((#[trigger] parts[i]).1),
        _ => true,
    }
}

/// Whether a name can be a factor of a product whose rank adds up: it is
/// valid, its rank is known, and a prism, tegum or comb product holds no
/// nullitope.
pub open spec fn fit_factor(kind: Product) -> spec_fn(NameView) -> bool {
    |n: NameView|
        valid(n) && rank_of(n) is Some && (kind != Product::Pyramid ==> nullitope_free(n))
}

/// What one factor adds to the rank of a product: its rank, and in a
/// pyramid or comb product one more.
pub open spec fn weight(kind: Product, n: NameView) -> int {
    match kind {
        Product::Pyramid => rank_of(n)->0 + 1,
        Product::Comb => rank_of(n)->0 + 1,
        Product::Prism => rank_of(n)->0,
        Product::Tegum => rank_of(n)->0,
    }
}

/// What the factors of a list add to the rank of a product.
pub open spec fn weights(kind: Product, bases: Seq<NameView>) -> int
    decreases bases.len(),
{
    if bases.len() == 0 {
        0
    } else {
        weights(kind, bases.drop_last()) + weight(kind, bases.last())
    }
}

/// What a product adds to the sum of the weights of its factors: nothing
/// for prisms and tegums, and one less for pyramids and combs.
pub open spec fn offset(kind: Product) -> int {
    match kind {
        Product::Pyramid => -1,
        Product::Comb => -1,
        Product::Prism => 0,
        Product::Tegum => 0,
    }
}

/// The rank of a product node is the sum of the weights of its bases, where
/// all their ranks are known.
pub proof fn lemma_multi_rank(kind: Product, bases: Seq<NameView>)
    requires
        forall|i: int| 0 <= i < bases.len() ==> rank_of(#[trigger] bases[i]) is Some,
    ensures
        rank_units(bases) is Some,
        rank_of(NameView::Multi(kind, bases)) == Some(weights(kind, bases) + offset(kind)),
        weights(kind, bases) == match kind {
            Product::Pyramid => rank_units(bases)->0,
            Product::Comb => rank_units(bases)->0,
            Product::Prism => rank_units(bases)->0 - bases.len(),
            Product::Tegum => rank_units(bases)->0 - bases.len(),
        },
    decreases bases.len(),
{
    if bases.len() > 0 {
        let front = bases.drop_last();
        assert forall|i: int| 0 <= i < front.len() implies rank_of(#[trigger] front[i]) is Some by {
            assert(front[i] == bases[i]);
        }
        lemma_multi_rank(kind, front);
        assert(rank_of(bases[bases.len() - 1]) is Some);
    }
}

/// The weights of two lists joined are the weights of the two.
pub proof fn lemma_weights_add(kind: Product, a: Seq<NameView>, b: Seq<NameView>)
    ensures
        weights(kind, a + b) == weights(kind, a) + weights(kind, b),
    decreases b.len(),
{
    if b.len() == 0 {
        assert(a + b =~= a);
    } else {
        lemma_weights_add(kind, a, b.drop_last());
        assert((a + b).drop_last() =~= a + b.drop_last());
        assert((a + b).last() == b.last());
    }
}

/// The weights of a list that one more name has entered.
pub proof fn lemma_weights_insert(kind: Product, s: Seq<NameView>, p: int, x: NameView)
    requires
        0 <= p <= s.len(),
    ensures
        weights(kind, s.insert(p, x)) == weights(kind, s) + weight(kind, x),
    decreases s.len() - p,
{
    if p == s.len() {
        assert(s.insert(p, x) =~= s.push(x));
        assert(s.push(x).drop_last() =~= s);
    } else {
        lemma_weights_insert(kind, s.drop_last(), p, x);
        assert(s.insert(p, x).drop_last() =~= s.drop_last().insert(p, x));
        assert(s.insert(p, x).last() == s.last());
    }
}

/// Sorting keeps the weights of a list.
pub proof fn lemma_weights_sort(kind: Product, s: Seq<NameView>)
    ensures
        weights(kind, sort(s)) == weights(kind, s),
    decreases s.len(),
{
    if s.len() > 0 {
        let rest = sort_by(s.drop_last(), by_name());
        lemma_weights_sort(kind, s.drop_last());
        lemma_position_bound(rest, s.last(), by_name());
        lemma_weights_insert(kind, rest, position(rest, s.last(), by_name()) as int, s.last());
    }
}

/// The bases that a product gathers from its factors are factors too, and
/// their weights and the units of the atoms make up the weights of the
/// factors.
pub proof fn lemma_gathered_weights(kind: Product, bases: Seq<NameView>)
    requires
        forall|i: int| 0 <= i < bases.len() ==> fit_factor(kind)(#[trigger] bases[i]),
    ensures
        forall|i: int|
            0 <= i < gathered(kind, bases).len() ==> fit_factor(kind)(
                #[trigger] gathered(kind, bases)[i],
            ),
        weights(kind, bases) == weights(kind, gathered(kind, bases)) + units(kind, bases),
        !nullified(kind, bases),
    decreases bases.len(),
{
    if bases.len() > 0 {
        let front = bases.drop_last();
        let last = bases.last();
        assert forall|i: int| 0 <= i < front.len() implies fit_factor(kind)(
            #[trigger] front[i],
        ) by {
            assert(front[i] == bases[i]);
        }
        lemma_gathered_weights(kind, front);
        let rest = gathered(kind, front);
        assert(fit_factor(kind)(bases[bases.len() - 1]));
        assert(!nullified(kind, bases)) by {
            if nullified(kind, bases) {
                let i = choose|i: int|
                    0 <= i < bases.len() && absorb(kind, #[trigger] bases[i]) is Null;
                if i < front.len() {
                    assert(front[i] == bases[i]);
                }
            }
        }
        match absorb(kind, last) {
            Absorb::Splice(inner) => {
                assert(last == NameView::Multi(kind, inner));
                assert forall|i: int| 0 <= i < inner.len() implies fit_factor(kind)(
                    #[trigger] inner[i],
                ) by {
                    assert(valid(inner[i]));
                    lemma_known_rank(inner, i);
                }
                lemma_multi_rank(kind, inner);
                lemma_weights_add(kind, rest, inner);
                assert forall|i: int| 0 <= i < (rest + inner).len() implies fit_factor(kind)(
                    #[trigger] (rest + inner)[i],
                ) by {
                    if i >= rest.len() {
                        assert((rest + inner)[i] == inner[i - rest.len()]);
                    } else {
                        assert((rest + inner)[i] == rest[i]);
                    }
                }
            },
            Absorb::Keep => {
                assert(rest.push(last).drop_last() =~= rest);
                assert forall|i: int| 0 <= i < rest.push(last).len() implies fit_factor(kind)(
                    #[trigger] rest.push(last)[i],
                ) by {
                    if i < rest.len() {
                        assert(rest.push(last)[i] == rest[i]);
                    }
                }
            },
            _ => {},
        }
    }
}

/// Where the rank units of a list are known, the rank of each of its names
/// is known.
pub proof fn lemma_known_rank(bases: Seq<NameView>, i: int)
    requires
        0 <= i < bases.len(),
        rank_units(bases) is Some,
    ensures
        rank_of(bases[i]) is Some,
    decreases bases.len(),
{
    if i < bases.len() - 1 {
        lemma_known_rank(bases.drop_last(), i);
    }
}

/// The atom that stands for some units weighs as much as they do.
pub proof fn lemma_atom_weight(kind: Product, count: nat, g: Regime)
    requires
        count >= 2,
        kind != Product::Comb,
    ensures
        rank_of(atom_of(kind, count, g)) is Some,
        weight(kind, atom_of(kind, count, g)) == count,
{
}

/// The rank of the bases of a product, collapsed, is the sum of their
/// weights.
pub proof fn lemma_collapse_rank(kind: Product, bases: Seq<NameView>)
    requires
        forall|i: int| 0 <= i < bases.len() ==> rank_of(#[trigger] bases[i]) is Some,
    ensures
        rank_of(collapse(kind, bases)) == Some(weights(kind, bases) + offset(kind)),
{
    lemma_multi_rank(kind, bases);
    if bases.len() == 1 {
        assert(bases.drop_last() =~= Seq::<NameView>::empty());
        assert(weights(kind, bases.drop_last()) == 0);
    }
}

/// The rank of a single pyramid, prism or tegum of a name is one more than
/// the rank of the name.
pub proof fn lemma_single_rank(kind: Product, n: NameView, g: Regime)
    requires
        kind != Product::Comb,
        fit_factor(kind)(n),
    ensures
        rank_of(single_of(kind, n, g)) == Some(rank_of(n)->0 + 1),
    decreases 2 * height(n), 0nat,
{
    match n {
        NameView::Single(k, base) => {
            if k == kind {
                let bases = seq![double_unit(kind, g), *base];
                lemma_seq_height_pair(double_unit(kind, g), *base);
                assert forall|i: int| 0 <= i < bases.len() implies fit_factor(kind)(
                    #[trigger] bases[i],
                ) by {}
                lemma_product_rank(kind, bases, g);
                assert(bases.drop_last() =~= seq![double_unit(kind, g)]);
                assert(seq![double_unit(kind, g)].drop_last() =~= Seq::<NameView>::empty());
                assert(weights(kind, seq![double_unit(kind, g)]) == weight(
                    kind,
                    double_unit(kind, g),
                )) by {
                    assert(weights(kind, seq![double_unit(kind, g)].drop_last()) == 0);
                }
            }
        },
        NameView::Multi(k, bases) => {
            if k == kind {
                let more = bases.push(single_unit(kind));
                lemma_seq_height_push(bases, single_unit(kind));
                assert forall|i: int| 0 <= i < bases.len() implies rank_of(
                    #[trigger] bases[i],
                ) is Some by {
                    lemma_known_rank(bases, i);
                }
                assert forall|i: int| 0 <= i < more.len() implies fit_factor(kind)(
                    #[trigger] more[i],
                ) by {
                    if i < bases.len() {
                        assert(more[i] == bases[i]);
                        assert(valid(bases[i]));
                    }
                }
                lemma_product_rank(kind, more, g);
                lemma_multi_rank(kind, bases);
                assert(more.drop_last() =~= bases);
            }
        },
        _ => {},
    }
}

/// The rank of a product is the sum of the weights of its factors.
pub proof fn lemma_product_rank(kind: Product, bases: Seq<NameView>, g: Regime)
    requires
        forall|i: int| 0 <= i < bases.len() ==> fit_factor(kind)(#[trigger] bases[i]),
    ensures
        rank_of(product_of(kind, bases, g)) == Some(weights(kind, bases) + offset(kind)),
    decreases 2 * seq_height(bases) + 1, 0nat,
{
    let kept = gathered(kind, bases);
    let count = units(kind, bases);
    lemma_gathered_weights(kind, bases);
    assert forall|i: int| 0 <= i < kept.len() implies rank_of(#[trigger] kept[i]) is Some by {
        assert(fit_factor(kind)(kept[i]));
    }
    if count == 1 {
        crate::product::lemma_units_comb(bases);
        let sorted = sort(kept);
        lemma_sort_all(kept, by_name(), fit_factor(kind));
        assert forall|i: int| 0 <= i < sorted.len() implies rank_of(
            #[trigger] sorted[i],
        ) is Some by {
            assert(fit_factor(kind)(sorted[i]));
        }
        lemma_weights_sort(kind, kept);
        lemma_collapse_rank(kind, sorted);
        let base = collapse(kind, sorted);
        if is_multi(kind, base) {
        } else if kept.len() == 1 {
            lemma_gathered_height(kind, bases);
            lemma_sort_single(kept);
            assert(fit_factor(kind)(kept[0]));
            lemma_single_rank(kind, kept[0], g);
        } else {
        }
    } else if count >= 2 {
        crate::product::lemma_units_comb(bases);
        let atom = atom_of(kind, count, g);
        lemma_atom_weight(kind, count, g);
        let all = kept.push(atom);
        assert(all.drop_last() =~= kept);
        let sorted = sort(all);
        assert forall|i: int| 0 <= i < all.len() implies rank_of(#[trigger] all[i]) is Some by {
            if i < kept.len() {
                assert(all[i] == kept[i]);
            }
        }
        lemma_sort_all(all, by_name(), |n: NameView| rank_of(n) is Some);
        lemma_weights_sort(kind, all);
        lemma_collapse_rank(kind, sorted);
    } else {
        let sorted = sort(kept);
        lemma_sort_all(kept, by_name(), |n: NameView| rank_of(n) is Some);
        lemma_weights_sort(kind, kept);
        lemma_collapse_rank(kind, sorted);
    }
}

/// Every base that a product gathers from measurable names is measurable.
pub proof fn lemma_gathered_measurable(kind: Product, bases: Seq<NameView>)
    requires
        forall|i: int| 0 <= i < bases.len() ==> measurable(#[trigger] bases[i]),
    ensures
        forall|i: int|
            0 <= i < gathered(kind, bases).len() ==> measurable(
                #[trigger] gathered(kind, bases)[i],
            ),
    decreases bases.len(),
{
    if bases.len() > 0 {
        let front = bases.drop_last();
        let last = bases.last();
        assert forall|i: int| 0 <= i < front.len() implies measurable(#[trigger] front[i]) by {
            assert(front[i] == bases[i]);
        }
        lemma_gathered_measurable(kind, front);
        let rest = gathered(kind, front);
        assert(measurable(bases[bases.len() - 1]));
        match absorb(kind, last) {
            Absorb::Splice(inner) => {
                assert(last == NameView::Multi(kind, inner));
                assert forall|i: int| 0 <= i < (rest + inner).len() implies measurable(
                    #[trigger] (rest + inner)[i],
                ) by {
                    if i >= rest.len() {
                        assert((rest + inner)[i] == inner[i - rest.len()]);
                        assert(ranked(inner[i - rest.len()]));
                        assert(counted(inner[i - rest.len()]));
                    } else {
                        assert((rest + inner)[i] == rest[i]);
                    }
                }
            },
            Absorb::Keep => {
                assert forall|i: int| 0 <= i < rest.push(last).len() implies measurable(
                    #[trigger] rest.push(last)[i],
                ) by {
                    if i < rest.len() {
                        assert(rest.push(last)[i] == rest[i]);
                    }
                }
            },
            _ => {},
        }
    }
}

/// Where a product puts two units or more back as one atom, the atom
/// stands in the product: it is as measurable as the product, and it fits
/// where the product fits.
pub proof fn lemma_atom_stands(kind: Product, bases: Seq<NameView>, atom: NameView)
    ensures
        measurable(collapse(kind, sort(bases.push(atom)))) ==> measurable(atom),
        fits(collapse(kind, sort(bases.push(atom)))) ==> fits(atom),
{
    let rest = sort(bases);
    let all = sort(bases.push(atom));
    lemma_sort_push(bases, atom, by_name());
    lemma_position_bound(rest, atom, by_name());
    lemma_sort_len(bases, by_name());
    let p = position(rest, atom, by_name()) as int;
    assert(all == rest.insert(p, atom));
    assert(all[p] == atom);
    if all.len() >= 2 {
        let whole = NameView::Multi(kind, all);
        if measurable(whole) {
            assert(ranked(all[p]));
            assert(counted(all[p]));
        }
    }
}

/// A single pyramid, prism or tegum of a measurable name can be made
/// within the limits of the machine where what it makes is measurable and
/// fits the machine.
pub proof fn lemma_single_ready(kind: Product, n: NameView, g: Regime)
    requires
        measurable(n),
        measurable(single_of(kind, n, g)),
        fits(single_of(kind, n, g)),
    ensures
        single_ready(kind, n, g),
    decreases 2 * height(n), 0nat,
{
    match n {
        NameView::Single(k, base) => {
            if k == kind && kind != Product::Comb {
                let bases = seq![double_unit(kind, g), *base];
                lemma_seq_height_pair(double_unit(kind, g), *base);
                assert(ranked(*base) && counted(*base));
                assert forall|i: int| 0 <= i < bases.len() implies measurable(
                    #[trigger] bases[i],
                ) by {}
                lemma_product_ready(kind, bases, g);
            }
        },
        NameView::Multi(k, bases) => {
            if k == kind && kind != Product::Comb {
                let more = bases.push(single_unit(kind));
                lemma_seq_height_push(bases, single_unit(kind));
                assert forall|i: int| 0 <= i < more.len() implies measurable(
                    #[trigger] more[i],
                ) by {
                    if i < bases.len() {
                        assert(more[i] == bases[i]);
                        assert(ranked(bases[i]) && counted(bases[i]));
                    }
                }
                lemma_product_ready(kind, more, g);
            }
        },
        _ => {},
    }
}

/// A product of measurable names can be made within the limits of the
/// machine where what it makes is measurable and fits the machine.
pub proof fn lemma_product_ready(kind: Product, bases: Seq<NameView>, g: Regime)
    requires
        forall|i: int| 0 <= i < bases.len() ==> measurable(#[trigger] bases[i]),
        measurable(product_of(kind, bases, g)),
        fits(product_of(kind, bases, g)),
    ensures
        product_ready(kind, bases, g),
    decreases 2 * seq_height(bases) + 1, 0nat,
{
    let kept = gathered(kind, bases);
    let count = units(kind, bases);
    lemma_gathered_measurable(kind, bases);
    if !nullified(kind, bases) {
        if count >= 2 {
            lemma_atom_stands(kind, kept, atom_of(kind, count, g));
        } else if count == 1 && kept.len() == 1 && !is_multi(kind, kept[0]) {
            lemma_gathered_height(kind, bases);
            lemma_sort_single(kept);
            assert(measurable(kept[0]));
            lemma_single_ready(kind, kept[0], g);
        }
    }
}

} // verus!
