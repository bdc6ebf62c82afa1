//! The laws of the algebra of names.
use crate::algebra::{
    Absorb, absorb, atom_of, centers_agree, default_regular, double_unit, dual_of, duals_of,
    gathered, lemma_gathered_height, nullified, petrial_of, product_of, regular_dual, simplex_of,
    single_of, units,
};
use crate::canon::{lemma_single_rank, nullitope_free};
use crate::model::{held, in_regime, is_multi, NameView, Product, rank_of, seq_height, valid};
use crate::order::{
    by_name, lemma_position_bound, lemma_sort_all, lemma_sort_idempotent, lemma_sort_len,
    lemma_sort_presorted, lemma_sort_push, lemma_sort_unique, position, sort, tie_free,
};
use crate::product::{lemma_gathered_step, lemma_units_comb};
use crate::regime::Regime;
use vstd::prelude::*;

verus! {

/// Whether a name is no Petrial of a Petrial. The Petrial of a name never
/// is one.
pub open spec fn petrial_reduced(n: NameView) -> bool {
    n matches NameView::Petrial { base } ==> !(*base is Petrial)
}

/// The Petrial of a name is no Petrial of a Petrial, unless the name was
/// one.
pub proof fn lemma_petrial_reduced(n: NameView)
    requires
        petrial_reduced(n),
    ensures
        petrial_reduced(petrial_of(n)),
{
}

/// Petrials are involutions: the Petrial of the Petrial of a name is the
/// name, as long as the name is no Petrial of a Petrial.
pub proof fn lemma_petrial_involution(n: NameView)
    requires
        petrial_reduced(n),
    ensures
        petrial_of(petrial_of(n)) == n,
{
}

/// Whether the dual of the dual of `n`, both around `c`, is `n` again.
///
/// A regular shape must have its center within the tolerance of `c`, or
/// its dual is no longer regular. The dual of a concrete quadrilateral
/// does not lead back to it. The dual of a base around `c` must be the
/// dual node of that base; a dual around another center must be one that
/// is wrapped, since a generic name does not lead back.
pub open spec fn dual_exact(n: NameView, c: Option<Seq<i64>>, g: Regime) -> bool
    decreases n,
{
    match n {
        NameView::Triangle { regular } => regular_dual(regular, c, g) == regular,
        NameView::Polygon { regular, .. } => regular_dual(regular, c, g) == regular,
        NameView::Simplex { regular, .. } => regular_dual(regular, c, g) == regular,
        NameView::Cuboid { regular } => regular_dual(regular, c, g) == regular,
        NameView::Hyperblock { regular, .. } => regular_dual(regular, c, g) == regular,
        NameView::Orthoplex { regular, .. } => regular_dual(regular, c, g) == regular,
        NameView::Quadrilateral { .. } => g is Abstract,
        NameView::Dual { base, center } => if centers_agree(c, center) {
            dual_of(*base, c, g) == n
        } else {
            dual_of(n, c, g) == (NameView::Dual { base: Box::new(n), center: c })
        },
        NameView::Single(_, base) => g is Abstract ==> dual_exact(*base, c, g),
        NameView::Multi(_, bases) => g is Abstract ==> forall|i: int|
            0 <= i < bases.len() ==> dual_exact(#[trigger] bases[i], c, g),
        _ => true,
    }
}

/// The dual is an involution: the dual of the dual of a valid name, both
/// around the same center, is the name, wherever neither dual loses what
/// the name records.
pub proof fn lemma_dual_involution(n: NameView, c: Option<Seq<i64>>, g: Regime)
    requires
        valid(n),
        in_regime(n, g),
        held(c, g),
        dual_exact(n, c, g),
    ensures
        dual_of(dual_of(n, c, g), c, g) == n,
    decreases n,
{
    match n {
        NameView::Single(kind, base) => {
            if g is Abstract {
                lemma_dual_involution(*base, c, g);
            }
        },
        NameView::Multi(kind, bases) => {
            if g is Abstract {
                let once = duals_of(bases, c, g);
                let twice = duals_of(once, c, g);
                assert forall|i: int| 0 <= i < bases.len() implies twice[i] == bases[i] by {
                    lemma_dual_involution(bases[i], c, g);
                }
                assert(twice =~= bases);
            }
        },
        _ => {},
    }
}

/// Whether the product of the given kind keeps a name as a base.
pub open spec fn kept_by(kind: Product) -> spec_fn(NameView) -> bool {
    |n: NameView| absorb(kind, n) is Keep
}

/// Whether the products among `bases` are flattened: each base that is a
/// product of the given kind holds only names that such a product keeps.
pub open spec fn settled(kind: Product, bases: Seq<NameView>) -> bool {
    forall|i: int, j: int|
        0 <= i < bases.len() && (#[trigger] bases[i]) is Multi && is_multi(kind, bases[i]) && 0
            <= j < bases[i]->Multi_1.len() ==> kept_by(kind)(#[trigger] bases[i]->Multi_1[j])
}

/// A product keeps every base that it gathers from a list whose products
/// are flattened.
pub proof fn lemma_gathered_kept(kind: Product, bases: Seq<NameView>)
    requires
        settled(kind, bases),
    ensures
        forall|i: int|
            0 <= i < gathered(kind, bases).len() ==> kept_by(kind)(
                #[trigger] gathered(kind, bases)[i],
            ),
    decreases bases.len(),
{
    if bases.len() > 0 {
        let front = bases.drop_last();
        let last = bases.last();
        assert(settled(kind, front)) by {
            assert forall|i: int, j: int|
                0 <= i < front.len() && (#[trigger] front[i]) is Multi && is_multi(kind, front[i])
                    && 0 <= j < front[i]->Multi_1.len() implies kept_by(kind)(
                #[trigger] front[i]->Multi_1[j],
            ) by {
                assert(front[i] == bases[i]);
            }
        }
        lemma_gathered_kept(kind, front);
        let rest = gathered(kind, front);
        match absorb(kind, last) {
            Absorb::Splice(inner) => {
                assert(last == NameView::Multi(kind, inner));
                assert(bases[bases.len() - 1] == last);
                assert forall|i: int| 0 <= i < (rest + inner).len() implies kept_by(kind)(
                    #[trigger] (rest + inner)[i],
                ) by {
                    if i >= rest.len() {
                        assert((rest + inner)[i] == inner[i - rest.len()]);
                        assert(kept_by(kind)(bases[bases.len() - 1]->Multi_1[i - rest.len()]));
                    } else {
                        assert((rest + inner)[i] == rest[i]);
                    }
                }
            },
            Absorb::Keep => {
                assert forall|i: int| 0 <= i < rest.push(last).len() implies kept_by(kind)(
                    #[trigger] rest.push(last)[i],
                ) by {
                    if i < rest.len() {
                        assert(rest.push(last)[i] == rest[i]);
                    }
                }
            },
            _ => {},
        }
    }
}

/// A product gathers a list of names that it keeps as it stands, and finds
/// no atom in it.
pub proof fn lemma_all_kept(kind: Product, bases: Seq<NameView>)
    requires
        forall|i: int| 0 <= i < bases.len() ==> kept_by(kind)(#[trigger] bases[i]),
    ensures
        gathered(kind, bases) == bases,
        units(kind, bases) == 0,
        !nullified(kind, bases),
    decreases bases.len(),
{
    if bases.len() > 0 {
        let front = bases.drop_last();
        assert forall|i: int| 0 <= i < front.len() implies kept_by(kind)(#[trigger] front[i]) by {
            assert(front[i] == bases[i]);
        }
        lemma_all_kept(kind, front);
        assert(kept_by(kind)(bases[bases.len() - 1]));
        assert(front.push(bases.last()) =~= bases);
    }
    assert(!nullified(kind, bases)) by {
        if nullified(kind, bases) {
            let i = choose|i: int|
                0 <= i < bases.len() && absorb(kind, #[trigger] bases[i]) is Null;
            assert(kept_by(kind)(bases[i]));
        }
    }
}

/// Where one atom has entered a list of names that a product keeps, the
/// product gathers the list without the atom, and counts the units of the
/// atom.
pub proof fn lemma_gathered_atom(kind: Product, bases: Seq<NameView>, p: int, atom: NameView)
    requires
        0 <= p <= bases.len(),
        forall|i: int| 0 <= i < bases.len() ==> kept_by(kind)(#[trigger] bases[i]),
        absorb(kind, atom) is Units,
    ensures
        gathered(kind, bases.insert(p, atom)) == bases,
        units(kind, bases.insert(p, atom)) == absorb(kind, atom)->Units_0,
        !nullified(kind, bases.insert(p, atom)),
    decreases bases.len() - p,
{
    let all = bases.insert(p, atom);
    if p == bases.len() {
        assert(all =~= bases.push(atom));
        assert(all.drop_last() =~= bases);
        lemma_all_kept(kind, bases);
    } else {
        let front = bases.drop_last();
        assert forall|i: int| 0 <= i < front.len() implies kept_by(kind)(#[trigger] front[i]) by {
            assert(front[i] == bases[i]);
        }
        lemma_gathered_atom(kind, front, p, atom);
        assert(all.drop_last() =~= front.insert(p, atom));
        assert(all.last() == bases.last());
        assert(kept_by(kind)(bases[bases.len() - 1]));
        assert(front.push(bases.last()) =~= bases);
    }
    assert(!nullified(kind, all)) by {
        if nullified(kind, all) {
            let i = choose|i: int| 0 <= i < all.len() && absorb(kind, #[trigger] all[i]) is Null;
            if i < p {
                assert(all[i] == bases[i]);
                assert(kept_by(kind)(bases[i]));
            } else if i > p {
                assert(all[i] == bases[i - 1]);
                assert(kept_by(kind)(bases[i - 1]));
            }
        }
    }
}

/// A product takes the atom that stands for some units back for as many
/// units, or keeps it as a base.
pub proof fn lemma_atom_absorb(kind: Product, count: nat, g: Regime)
    requires
        count >= 2,
        kind != Product::Comb,
    ensures
        absorb(kind, atom_of(kind, count, g)) == Absorb::Units(count) || kept_by(kind)(
            atom_of(kind, count, g),
        ),
{
}

/// Whether the products among `bases` are flattened, here and wherever the
/// product of `bases` goes on to fold a single pyramid, prism or tegum into
/// a product of its own.
pub open spec fn well_settled(kind: Product, bases: Seq<NameView>, g: Regime) -> bool
    decreases seq_height(bases),
{
    let kept = gathered(kind, bases);
    &&& settled(kind, bases)
    &&& (units(kind, bases) == 1 && kept.len() == 1 ==> (kept[0] matches NameView::Single(
        k,
        base,
    ) ==> k == kind ==> {
        proof {
            lemma_gathered_height(kind, bases);
            crate::algebra::lemma_seq_height_pair(double_unit(kind, g), *base);
        }
        well_settled(kind, seq![double_unit(kind, g), *base], g)
    }))
}

/// Canonical form is kept: where a product of names whose products are
/// flattened is a product node, the product of the bases of that node is
/// the node again.
pub proof fn lemma_product_idempotent(kind: Product, bases: Seq<NameView>, g: Regime)
    requires
        well_settled(kind, bases, g),
        is_multi(kind, product_of(kind, bases, g)),
    ensures
        product_of(kind, product_of(kind, bases, g)->Multi_1, g) == product_of(kind, bases, g),
    decreases seq_height(bases),
{
    let kept = gathered(kind, bases);
    let count = units(kind, bases);
    lemma_gathered_kept(kind, bases);
    lemma_units_comb(bases);
    let tidy = sort(kept);
    lemma_sort_all(kept, by_name(), kept_by(kind));
    lemma_sort_idempotent(kept, by_name());
    lemma_sort_len(kept, by_name());
    assert forall|i: int| 0 <= i < tidy.len() implies kept_by(kind)(#[trigger] tidy[i]) by {}
    if count == 1 {
        if kept.len() == 1 {
            crate::order::lemma_sort_single(kept);
            assert(kept_by(kind)(kept[0]));
            match kept[0] {
                NameView::Single(k, base) => {
                    if k == kind {
                        lemma_gathered_height(kind, bases);
                        crate::algebra::lemma_seq_height_pair(double_unit(kind, g), *base);
                        lemma_product_idempotent(kind, seq![double_unit(kind, g), *base], g);
                    }
                },
                _ => {},
            }
        }
    } else if count >= 2 {
        let atom = atom_of(kind, count, g);
        lemma_atom_absorb(kind, count, g);
        lemma_sort_push(kept, atom, by_name());
        lemma_position_bound(tidy, atom, by_name());
        let p = position(tidy, atom, by_name()) as int;
        let again = tidy.insert(p, atom);
        assert(again == sort(kept.push(atom)));
        lemma_sort_len(kept.push(atom), by_name());
        if again.len() == 1 {
            assert(again[p] == atom);
            assert(!is_multi(kind, atom));
        } else {
            assert(product_of(kind, bases, g) == NameView::Multi(kind, again));
            if kept_by(kind)(atom) {
                assert forall|i: int| 0 <= i < again.len() implies kept_by(kind)(
                    #[trigger] again[i],
                ) by {
                    if i < p {
                        assert(again[i] == tidy[i]);
                    } else if i > p {
                        assert(again[i] == tidy[i - 1]);
                    }
                }
                lemma_all_kept(kind, again);
                lemma_sort_idempotent(kept.push(atom), by_name());
            } else {
                lemma_gathered_atom(kind, tidy, p, atom);
                lemma_sort_push(tidy, atom, by_name());
            }
        }
    } else {
        if tidy.len() == 1 {
            assert(kept_by(kind)(tidy[0]));
        } else if tidy.len() >= 2 {
            lemma_all_kept(kind, tidy);
        }
    }
}

/// The grouping of the factors makes no difference: the product of the
/// product of `a` and `b` with `c` is the product of `a`, `b` and `c`,
/// where the product of `a` and `b` is a product node that holds no atom.
pub proof fn lemma_product_regroup(
    kind: Product,
    a: NameView,
    b: NameView,
    c: NameView,
    g: Regime,
)
    requires
        units(kind, seq![a, b]) == 0,
        !nullified(kind, seq![a, b]),
        gathered(kind, seq![a, b]).len() >= 2,
    ensures
        product_of(kind, seq![product_of(kind, seq![a, b], g), c], g) == product_of(
            kind,
            seq![a, b, c],
            g,
        ),
{
    let pair = seq![a, b];
    let flat = seq![a, b, c];
    let both = gathered(kind, pair);
    let tidy = sort(both);
    lemma_sort_len(both, by_name());
    let inner = product_of(kind, pair, g);
    assert(inner == NameView::Multi(kind, tidy));
    let nested = seq![inner, c];
    // What the product gathers from the flat list.
    assert(flat.take(2) =~= pair);
    assert(flat.take(3) =~= flat);
    lemma_gathered_step(kind, flat, 2);
    // What the product gathers from the nested list.
    assert(nested.take(0) =~= Seq::<NameView>::empty());
    assert(nested.take(2) =~= nested);
    lemma_gathered_step(kind, nested, 0);
    lemma_gathered_step(kind, nested, 1);
    assert(gathered(kind, nested.take(1)) =~= tidy);
    let tail = gathered_one(kind, c);
    assert(gathered(kind, flat) =~= both + tail);
    assert(gathered(kind, nested) =~= tidy + tail);
    let count = units(kind, flat);
    assert(units(kind, nested) == count);
    assert(nullified(kind, nested) == nullified(kind, flat)) by {
        if nullified(kind, nested) {
            let i = choose|i: int|
                0 <= i < nested.len() && absorb(kind, #[trigger] nested[i]) is Null;
            assert(i == 1);
            assert(absorb(kind, flat[2]) is Null);
        }
        if nullified(kind, flat) {
            let i = choose|i: int| 0 <= i < flat.len() && absorb(kind, #[trigger] flat[i]) is Null;
            if i < 2 {
                assert(pair[i] == flat[i]);
            }
            assert(absorb(kind, nested[1]) is Null);
        }
    }
    lemma_sort_presorted(both, tail, by_name());
    if count >= 2 {
        let atom = atom_of(kind, count, g);
        lemma_sort_presorted(both, tail.push(atom), by_name());
        assert((tidy + tail).push(atom) =~= tidy + tail.push(atom));
        assert((both + tail).push(atom) =~= both + tail.push(atom));
    } else if count == 1 {
        lemma_sort_len(both + tail, by_name());
        lemma_sort_len(tidy + tail, by_name());
    }
}

/// What a product gathers from one name.
pub open spec fn gathered_one(kind: Product, n: NameView) -> Seq<NameView> {
    match absorb(kind, n) {
        Absorb::Splice(inner) => inner,
        Absorb::Keep => seq![n],
        _ => Seq::empty(),
    }
}

/// The units that one name is worth to a product.
pub open spec fn units_one(kind: Product, n: NameView) -> nat {
    match absorb(kind, n) {
        Absorb::Units(u) => u,
        _ => 0,
    }
}

/// The grouping of the factors makes no difference where the product of
/// `a` and `b` is a product node that holds an atom, as long as `c` brings
/// no units of its own and the order of bases tells the bases apart.
pub proof fn lemma_product_regroup_atom(
    kind: Product,
    a: NameView,
    b: NameView,
    c: NameView,
    g: Regime,
)
    requires
        units(kind, seq![a, b]) >= 2,
        !nullified(kind, seq![a, b]),
        gathered(kind, seq![a, b]).len() >= 1,
        units_one(kind, c) == 0,
        !(absorb(kind, c) is Null),
        tie_free(
            (gathered(kind, seq![a, b]) + gathered_one(kind, c)).push(
                atom_of(kind, units(kind, seq![a, b]), g),
            ),
            by_name(),
        ),
    ensures
        product_of(kind, seq![product_of(kind, seq![a, b], g), c], g) == product_of(
            kind,
            seq![a, b, c],
            g,
        ),
{
    let pair = seq![a, b];
    let flat = seq![a, b, c];
    let both = gathered(kind, pair);
    let count = units(kind, pair);
    let atom = atom_of(kind, count, g);
    let tidy = sort(both.push(atom));
    lemma_sort_len(both.push(atom), by_name());
    let inner = product_of(kind, pair, g);
    assert(inner == NameView::Multi(kind, tidy));
    let nested = seq![inner, c];
    let tail = gathered_one(kind, c);
    // What the product gathers from the flat list.
    assert(flat.take(2) =~= pair);
    assert(flat.take(3) =~= flat);
    lemma_gathered_step(kind, flat, 2);
    assert(gathered(kind, flat) =~= both + tail);
    assert(units(kind, flat) == count);
    // What the product gathers from the nested list.
    assert(nested.take(0) =~= Seq::<NameView>::empty());
    assert(nested.take(2) =~= nested);
    lemma_gathered_step(kind, nested, 0);
    lemma_gathered_step(kind, nested, 1);
    assert(gathered(kind, nested.take(1)) =~= tidy);
    assert(gathered(kind, nested) =~= tidy + tail);
    assert(units(kind, nested) == 0);
    assert(!nullified(kind, nested)) by {
        if nullified(kind, nested) {
            let i = choose|i: int|
                0 <= i < nested.len() && absorb(kind, #[trigger] nested[i]) is Null;
            assert(i == 1);
        }
    }
    assert(!nullified(kind, flat)) by {
        if nullified(kind, flat) {
            let i = choose|i: int| 0 <= i < flat.len() && absorb(kind, #[trigger] flat[i]) is Null;
            if i < 2 {
                assert(pair[i] == flat[i]);
            }
        }
    }
    // Both lists hold the same bases.
    let one = (both + tail).push(atom);
    let other = both.push(atom) + tail;
    lemma_sort_presorted(both.push(atom), tail, by_name());
    assert(one.to_multiset() == other.to_multiset()) by {
        broadcast use vstd::seq_lib::group_to_multiset_ensures;

        vstd::seq_lib::lemma_multiset_commutative(both, tail);
        vstd::seq_lib::lemma_multiset_commutative(both.push(atom), tail);
        assert(one.to_multiset() =~= other.to_multiset());
    }
    lemma_sort_unique(one, other, by_name());
}

/// Taking one name out of a list takes out of what a product gathers just
/// what it gathers from that name, and the units of that name.
pub proof fn lemma_gathered_remove(kind: Product, s: Seq<NameView>, i: int)
    requires
        0 <= i < s.len(),
    ensures
        gathered(kind, s).to_multiset() == gathered(kind, s.remove(i)).to_multiset().add(
            gathered_one(kind, s[i]).to_multiset(),
        ),
        units(kind, s) == units(kind, s.remove(i)) + units_one(kind, s[i]),
    decreases s.len(),
{
    let front = s.drop_last();
    let last = s.last();
    let block = gathered_one(kind, last);
    assert(gathered(kind, s) =~= gathered(kind, front) + block);
    vstd::seq_lib::lemma_multiset_commutative(gathered(kind, front), block);
    if i == s.len() - 1 {
        assert(s.remove(i) =~= front);
    } else {
        lemma_gathered_remove(kind, front, i);
        let less = s.remove(i);
        assert(less.drop_last() =~= front.remove(i));
        assert(less.last() == last);
        assert(gathered(kind, less) =~= gathered(kind, front.remove(i)) + block);
        vstd::seq_lib::lemma_multiset_commutative(gathered(kind, front.remove(i)), block);
        assert(front[i] == s[i]);
        assert(gathered(kind, s).to_multiset() =~= gathered(kind, less).to_multiset().add(
            gathered_one(kind, s[i]).to_multiset(),
        ));
    }
}

/// What a product gathers from a list, the units that it counts, and
/// whether it comes to nothing, do not depend on the order of the list.
pub proof fn lemma_gathered_permuted(kind: Product, s: Seq<NameView>, t: Seq<NameView>)
    requires
        s.to_multiset() == t.to_multiset(),
    ensures
        gathered(kind, s).to_multiset() == gathered(kind, t).to_multiset(),
        units(kind, s) == units(kind, t),
        nullified(kind, s) == nullified(kind, t),
    decreases s.len(),
{
    s.to_multiset_ensures();
    t.to_multiset_ensures();
    assert(s.len() == t.len());
    if s.len() > 0 {
        let x = t.last();
        assert(t.contains(x)) by {
            assert(t[t.len() - 1] == x);
        }
        assert(s.to_multiset().count(x) > 0);
        assert(s.contains(x));
        let i = choose|i: int| 0 <= i < s.len() && s[i] == x;
        vstd::seq_lib::to_multiset_remove(s, i);
        vstd::seq_lib::to_multiset_remove(t, t.len() - 1);
        assert(t.remove(t.len() - 1) =~= t.drop_last());
        lemma_gathered_permuted(kind, s.remove(i), t.drop_last());
        lemma_gathered_remove(kind, s, i);
        lemma_gathered_remove(kind, t, t.len() - 1);
    } else {
        assert(s =~= t);
    }
    assert(nullified(kind, s) == nullified(kind, t)) by {
        if nullified(kind, s) {
            let i = choose|i: int| 0 <= i < s.len() && absorb(kind, #[trigger] s[i]) is Null;
            assert(s.contains(s[i]));
            assert(t.to_multiset().count(s[i]) > 0);
            assert(t.contains(s[i]));
            let j = choose|j: int| 0 <= j < t.len() && t[j] == s[i];
            assert(absorb(kind, t[j]) is Null);
        }
        if nullified(kind, t) {
            let i = choose|i: int| 0 <= i < t.len() && absorb(kind, #[trigger] t[i]) is Null;
            assert(t.contains(t[i]));
            assert(s.to_multiset().count(t[i]) > 0);
            assert(s.contains(t[i]));
            let j = choose|j: int| 0 <= j < s.len() && s[j] == t[i];
            assert(absorb(kind, s[j]) is Null);
        }
    }
}

/// The order of the factors makes no difference: the product of a list of
/// names is the product of the same names in any other order, where the
/// order of bases tells the bases apart that the product gathers.
pub proof fn lemma_product_permuted(kind: Product, s: Seq<NameView>, t: Seq<NameView>, g: Regime)
    requires
        s.to_multiset() == t.to_multiset(),
        tie_free(gathered(kind, s), by_name()),
    ensures
        product_of(kind, t, g) == product_of(kind, s, g),
{
    let kept = gathered(kind, s);
    let other = gathered(kind, t);
    let count = units(kind, s);
    lemma_gathered_permuted(kind, s, t);
    lemma_sort_unique(kept, other, by_name());
    kept.to_multiset_ensures();
    other.to_multiset_ensures();
    assert(kept.len() == other.len());
    if count >= 2 {
        let atom = atom_of(kind, count, g);
        lemma_sort_push(kept, atom, by_name());
        lemma_sort_push(other, atom, by_name());
    } else if count == 1 {
        if kept.len() == 1 {
            crate::order::lemma_sort_single(kept);
            crate::order::lemma_sort_single(other);
        }
    }
}

/// The order of three factors makes no difference: the product of `c`, `b`
/// and `a` is the product of `a`, `b` and `c`, where the order of bases
/// tells the bases apart that the product gathers.
pub proof fn lemma_product_reverse(
    kind: Product,
    a: NameView,
    b: NameView,
    c: NameView,
    g: Regime,
)
    requires
        tie_free(gathered(kind, seq![a, b, c]), by_name()),
    ensures
        product_of(kind, seq![c, b, a], g) == product_of(kind, seq![a, b, c], g),
{
    let forth = seq![a, b, c];
    let back = seq![c, b, a];
    assert(back =~= forth.reverse());
    forth.lemma_reverse_to_multiset();
    lemma_product_permuted(kind, forth, back, g);
}

/// Whether the product of the given kind takes a name as an atom.
pub open spec fn atom_for(kind: Product) -> spec_fn(NameView) -> bool {
    |n: NameView| absorb(kind, n) is Units
}

/// A multipyramid of atoms gathers nothing and keeps count of their units.
pub proof fn lemma_atoms_gathered(kind: Product, bases: Seq<NameView>)
    requires
        forall|i: int| 0 <= i < bases.len() ==> atom_for(kind)(#[trigger] bases[i]),
    ensures
        gathered(kind, bases).len() == 0,
        !nullified(kind, bases),
    decreases bases.len(),
{
    if bases.len() > 0 {
        let front = bases.drop_last();
        assert forall|i: int| 0 <= i < front.len() implies atom_for(kind)(#[trigger] front[i]) by {
            assert(front[i] == bases[i]);
        }
        lemma_atoms_gathered(kind, front);
        assert(atom_for(kind)(bases[bases.len() - 1]));
    }
    assert(!nullified(kind, bases)) by {
        if nullified(kind, bases) {
            let i = choose|i: int|
                0 <= i < bases.len() && absorb(kind, #[trigger] bases[i]) is Null;
            assert(atom_for(kind)(bases[i]));
        }
    }
}

/// The multipyramid of points, dyads, triangles and simplices is the
/// simplex of as many vertices as they have together.
pub proof fn lemma_multipyramid_of_atoms(bases: Seq<NameView>, g: Regime)
    requires
        forall|i: int| 0 <= i < bases.len() ==> atom_for(Product::Pyramid)(#[trigger] bases[i]),
    ensures
        product_of(Product::Pyramid, bases, g) == simplex_of(
            default_regular(g),
            units(Product::Pyramid, bases),
        ),
{
    let kind = Product::Pyramid;
    lemma_atoms_gathered(kind, bases);
    let kept = gathered(kind, bases);
    let count = units(kind, bases);
    assert(kept =~= Seq::<NameView>::empty());
    assert(sort(kept) =~= Seq::<NameView>::empty());
    if count >= 2 {
        let atom = atom_of(kind, count, g);
        assert(kept.push(atom).len() == 1);
        crate::order::lemma_sort_single(kept.push(atom));
    }
}

/// Neither the grouping nor the order of the factors makes a difference
/// to a multipyramid of points, dyads, triangles and simplices.
pub proof fn lemma_multipyramid_atoms_regroup(a: NameView, b: NameView, c: NameView, g: Regime)
    requires
        atom_for(Product::Pyramid)(a),
        atom_for(Product::Pyramid)(b),
        atom_for(Product::Pyramid)(c),
    ensures
        product_of(
            Product::Pyramid,
            seq![product_of(Product::Pyramid, seq![a, b], g), c],
            g,
        ) == product_of(Product::Pyramid, seq![a, b, c], g),
        product_of(Product::Pyramid, seq![c, b, a], g) == product_of(
            Product::Pyramid,
            seq![a, b, c],
            g,
        ),
{
    let kind = Product::Pyramid;
    let pair = seq![a, b];
    let flat = seq![a, b, c];
    let back = seq![c, b, a];
    assert forall|i: int| 0 <= i < pair.len() implies atom_for(kind)(#[trigger] pair[i]) by {}
    assert forall|i: int| 0 <= i < flat.len() implies atom_for(kind)(#[trigger] flat[i]) by {}
    assert forall|i: int| 0 <= i < back.len() implies atom_for(kind)(#[trigger] back[i]) by {}
    lemma_multipyramid_of_atoms(pair, g);
    lemma_multipyramid_of_atoms(flat, g);
    lemma_multipyramid_of_atoms(back, g);
    let inner = product_of(kind, pair, g);
    let nested = seq![inner, c];
    assert(atom_for(kind)(inner));
    assert forall|i: int| 0 <= i < nested.len() implies atom_for(kind)(#[trigger] nested[i]) by {}
    lemma_multipyramid_of_atoms(nested, g);
    // The units of each list.
    assert(flat.take(3) =~= flat);
    assert(flat.take(2) =~= pair);
    lemma_gathered_step(kind, flat, 2);
    assert(pair.take(2) =~= pair);
    assert(pair.take(0) =~= Seq::<NameView>::empty());
    lemma_gathered_step(kind, pair, 0);
    lemma_gathered_step(kind, pair, 1);
    assert(nested.take(2) =~= nested);
    assert(nested.take(0) =~= Seq::<NameView>::empty());
    lemma_gathered_step(kind, nested, 0);
    lemma_gathered_step(kind, nested, 1);
    assert(back.take(3) =~= back);
    assert(back.take(0) =~= Seq::<NameView>::empty());
    lemma_gathered_step(kind, back, 0);
    lemma_gathered_step(kind, back, 1);
    lemma_gathered_step(kind, back, 2);
}

/// Rank is additive: the rank of a pyramid, prism or tegum of a valid name
/// is one more than the rank of the name, whenever that rank is known. For
/// prisms and tegums the law is stated of names that hold no nullitope.
pub proof fn lemma_rank_additive(kind: Product, n: NameView, g: Regime)
    requires
        kind != Product::Comb,
        valid(n),
        rank_of(n) is Some,
        kind != Product::Pyramid ==> nullitope_free(n),
    ensures
        rank_of(single_of(kind, n, g)) == Some(rank_of(n)->0 + 1),
{
    lemma_single_rank(kind, n, g);
}

} // verus!
