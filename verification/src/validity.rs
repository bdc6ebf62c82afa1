//! Validity is kept: the constructions make valid names of valid names.
//! The products and the single pyramids, prisms and tegums are dealt with
//! in [`crate::canon`]; this module deals with the rest.
use crate::algebra::{
    antiprism_of, centers_agree, compound_of, ditope_of, dual_kind, dual_of, duals_of, find_part,
    flatten_parts, generic_of, hosotope_of, hyperblock_of, merge_parts, orthoplex_of, petrial_of,
    polygon_of, simplex_of,
};
use crate::data::RegularView;
use crate::model::{facet_count_of, is_multi, NameView, rank_of, valid};
use crate::order::{by_part, lemma_sort_all, sort_parts};
use crate::regime::Regime;
use vstd::prelude::*;

verus! {

/// The name of a simplex is valid, whatever its rank.
pub proof fn lemma_simplex_valid(regular: Option<RegularView>, rank: nat)
    ensures
        valid(simplex_of(regular, rank)),
{
}

/// The name of a block is valid, whatever its rank.
pub proof fn lemma_hyperblock_valid(regular: Option<RegularView>, rank: nat, g: Regime)
    ensures
        valid(hyperblock_of(regular, rank, g)),
{
}

/// The name of an orthoplex is valid, whatever its rank.
pub proof fn lemma_orthoplex_valid(regular: Option<RegularView>, rank: nat, g: Regime)
    ensures
        valid(orthoplex_of(regular, rank, g)),
{
}

/// The name of a polygon is valid, however many sides it has.
pub proof fn lemma_polygon_valid(regular: Option<RegularView>, n: nat, g: Regime)
    ensures
        valid(polygon_of(regular, n, g)),
{
}

/// A generic name is valid where it stands for a low shape, or where its
/// facet count is at least 2 and its rank at most 21.
pub proof fn lemma_generic_valid(n: nat, rank: nat, g: Regime)
    requires
        rank >= 4 ==> n >= 2 && rank <= 21,
    ensures
        valid(generic_of(n, rank, g)),
{
}

/// The antiprism of a valid name is valid.
pub proof fn lemma_antiprism_valid(n: NameView, g: Regime)
    requires
        valid(n),
    ensures
        valid(antiprism_of(n, g)),
{
}

/// The ditope of a valid name is valid.
pub proof fn lemma_ditope_valid(n: NameView, rank: nat, g: Regime)
    requires
        valid(n),
    ensures
        valid(ditope_of(n, rank, g)),
{
}

/// The hosotope of a valid name is valid.
pub proof fn lemma_hosotope_valid(n: NameView, rank: nat, g: Regime)
    requires
        valid(n),
    ensures
        valid(hosotope_of(n, rank, g)),
{
}

/// The Petrial of a valid name is valid.
pub proof fn lemma_petrial_valid(n: NameView)
    requires
        valid(n),
    ensures
        valid(petrial_of(n)),
{
}

/// Whether the dual of `n` around `c` keeps to the invariants of names.
///
/// Where the dual of a dual around another center becomes a generic name,
/// that name must be one: with 2 facets or more, and of a rank of 21 at
/// most. Where the dual goes through a product, the dual of no base may be
/// a product of the kind that the whole becomes.
pub open spec fn dual_sound(n: NameView, c: Option<Seq<i64>>, g: Regime) -> bool
    decreases n,
{
    match n {
        NameView::Dual { base, center } => centers_agree(c, center) || match (
            facet_count_of(*base),
            rank_of(*base),
        ) {
            (Some(f), Some(r)) => r >= 3 ==> f >= 2 && r <= 20,
            _ => true,
        },
        NameView::Single(_, base) => g is Abstract ==> dual_sound(*base, c, g),
        NameView::Multi(kind, bases) => g is Abstract ==> forall|i: int|
            0 <= i < bases.len() ==> dual_sound(#[trigger] bases[i], c, g) && !is_multi(
                dual_kind(kind),
                dual_of(bases[i], c, g),
            ),
        _ => true,
    }
}

/// The dual of a valid name is valid, where it keeps to the invariants of
/// names.
pub proof fn lemma_dual_valid(n: NameView, c: Option<Seq<i64>>, g: Regime)
    requires
        valid(n),
        dual_sound(n, c, g),
    ensures
        valid(dual_of(n, c, g)),
    decreases n,
{
    match n {
        NameView::Single(_, base) => {
            if g is Abstract {
                lemma_dual_valid(*base, c, g);
            }
        },
        NameView::Multi(kind, bases) => {
            if g is Abstract {
                let duals = duals_of(bases, c, g);
                assert forall|i: int| 0 <= i < duals.len() implies valid(#[trigger] duals[i])
                    && !is_multi(dual_kind(kind), duals[i]) by {
                    assert(dual_sound(bases[i], c, g));
                    lemma_dual_valid(bases[i], c, g);
                }
            }
        },
        _ => {},
    }
}

/// Whether a component can stand in a valid compound: its name is valid,
/// and no compound.
pub open spec fn fit_part() -> spec_fn((nat, NameView)) -> bool {
    |p: (nat, NameView)| valid(p.1) && !(p.1 is Compound)
}

/// Every component flattened from valid names can stand in a valid
/// compound, and some component is left of some component.
pub proof fn lemma_flatten_fit(parts: Seq<(nat, NameView)>)
    requires
        forall|i: int| 0 <= i < parts.len() ==> valid((#[trigger] parts[i]).1),
    ensures
        forall|i: int|
            0 <= i < flatten_parts(parts).len() ==> fit_part()(#[trigger] flatten_parts(parts)[i]),
        parts.len() >= 1 ==> flatten_parts(parts).len() >= 1,
    decreases parts.len(),
{
    if parts.len() > 0 {
        let front = parts.drop_last();
        let last = parts.last();
        assert forall|i: int| 0 <= i < front.len() implies valid((#[trigger] front[i]).1) by {
            assert(front[i] == parts[i]);
        }
        lemma_flatten_fit(front);
        let rest = flatten_parts(front);
        assert(valid(parts[parts.len() - 1].1));
        match last.1 {
            NameView::Compound(inner) => {
                assert forall|i: int| 0 <= i < (rest + inner).len() implies fit_part()(
                    #[trigger] (rest + inner)[i],
                ) by {
                    if i >= rest.len() {
                        assert((rest + inner)[i] == inner[i - rest.len()]);
                        assert(valid(inner[i - rest.len()].1));
                        assert(!(inner[i - rest.len()].1 is Compound));
                    } else {
                        assert((rest + inner)[i] == rest[i]);
                    }
                }
            },
            _ => {
                assert forall|i: int| 0 <= i < rest.push(last).len() implies fit_part()(
                    #[trigger] rest.push(last)[i],
                ) by {
                    if i < rest.len() {
                        assert(rest.push(last)[i] == rest[i]);
                    }
                }
            },
        }
    }
}

/// The first place that holds a name holds it, and no place before it
/// does.
pub proof fn lemma_find_part_props(parts: Seq<(nat, NameView)>, x: NameView)
    ensures
        0 <= find_part(parts, x) <= parts.len(),
        find_part(parts, x) < parts.len() ==> parts[find_part(parts, x)].1 == x,
        forall|j: int| 0 <= j < find_part(parts, x) ==> (#[trigger] parts[j]).1 != x,
    decreases parts.len(),
{
    if parts.len() > 0 {
        let front = parts.drop_last();
        lemma_find_part_props(front, x);
        let k = find_part(front, x);
        assert forall|j: int| 0 <= j < find_part(parts, x) implies (#[trigger] parts[j]).1
            != x by {
            if j < front.len() {
                assert(front[j] == parts[j]);
            }
        }
        if k < front.len() {
            assert(front[k] == parts[k]);
        }
    }
}

/// The components merged from components that can stand in a valid
/// compound can stand in one, no two of them have the same name, and some
/// component is left of some component.
pub proof fn lemma_merge_fit(parts: Seq<(nat, NameView)>)
    requires
        forall|i: int| 0 <= i < parts.len() ==> fit_part()(#[trigger] parts[i]),
    ensures
        forall|i: int|
            0 <= i < merge_parts(parts).len() ==> fit_part()(#[trigger] merge_parts(parts)[i]),
        forall|i: int, j: int|
            0 <= i < j < merge_parts(parts).len() ==> (#[trigger] merge_parts(parts)[i]).1 != (
            #[trigger] merge_parts(parts)[j]).1,
        parts.len() >= 1 ==> merge_parts(parts).len() >= 1,
    decreases parts.len(),
{
    if parts.len() > 0 {
        let front = parts.drop_last();
        let p = parts.last();
        assert forall|i: int| 0 <= i < front.len() implies fit_part()(#[trigger] front[i]) by {
            assert(front[i] == parts[i]);
        }
        lemma_merge_fit(front);
        let rest = merge_parts(front);
        lemma_find_part_props(rest, p.1);
        let k = find_part(rest, p.1);
        assert(fit_part()(parts[parts.len() - 1]));
        let merged = merge_parts(parts);
        if 0 <= k < rest.len() {
            assert(merged == rest.update(k, (rest[k].0 + p.0, p.1)));
            assert forall|i: int| 0 <= i < merged.len() implies fit_part()(
                #[trigger] merged[i],
            ) by {
                if i != k {
                    assert(merged[i] == rest[i]);
                }
            }
            assert forall|i: int, j: int| 0 <= i < j < merged.len() implies (
            #[trigger] merged[i]).1 != (#[trigger] merged[j]).1 by {
                assert(merged[i].1 == rest[i].1);
                assert(merged[j].1 == rest[j].1);
            }
        } else {
            assert(merged == rest.push(p));
            assert forall|i: int| 0 <= i < merged.len() implies fit_part()(
                #[trigger] merged[i],
            ) by {
                if i < rest.len() {
                    assert(merged[i] == rest[i]);
                }
            }
            assert forall|i: int, j: int| 0 <= i < j < merged.len() implies (
            #[trigger] merged[i]).1 != (#[trigger] merged[j]).1 by {
                assert(merged[i] == rest[i]);
                if j < rest.len() {
                    assert(merged[j] == rest[j]);
                }
            }
        }
    }
}

/// The compound of valid names, of which there is one at least, is valid.
pub proof fn lemma_compound_valid(parts: Seq<(nat, NameView)>)
    requires
        parts.len() >= 1,
        forall|i: int| 0 <= i < parts.len() ==> valid((#[trigger] parts[i]).1),
    ensures
        valid(compound_of(parts)),
{
    let first = sort_parts(parts);
    lemma_sort_all(parts, by_part(), |p: (nat, NameView)| valid(p.1));
    assert forall|i: int| 0 <= i < first.len() implies valid((#[trigger] first[i]).1) by {}
    let flat = flatten_parts(first);
    lemma_flatten_fit(first);
    let again = sort_parts(flat);
    lemma_sort_all(flat, by_part(), fit_part());
    assert forall|i: int| 0 <= i < again.len() implies fit_part()(#[trigger] again[i]) by {}
    lemma_merge_fit(again);
    let merged = merge_parts(again);
    if merged.len() == 1 {
        assert(fit_part()(merged[0]));
    } else {
        assert forall|i: int| 0 <= i < merged.len() implies valid((#[trigger] merged[i]).1)
            && !(merged[i].1 is Compound) by {
            assert(fit_part()(merged[i]));
        }
    }
}

} // verus!
