//! The algebra of names, stated over their model: what each construction
//! makes of the names it is given. The executable constructors of
//! [`crate::name::Name`] are specified by these functions.
use crate::data::{close, Quadrilateral, RegularView};
use crate::model::{
    facet_count_of, fits, height, is_multi, measurable, NameView, Product, rank_of, seq_height,
};
use crate::order::{lemma_sort_single, sort, sort_parts};
use crate::regime::Regime;
use vstd::prelude::*;

verus! {

/// The regularity of a shape of which nothing is known: none in the
/// abstract regime, irregular in the concrete one.
pub open spec fn default_regular(g: Regime) -> Option<RegularView> {
    if g is Abstract {
        None
    } else {
        Some(RegularView::No)
    }
}

/// The payload made of `v` under the regime `g`.
pub open spec fn wrapped<A>(g: Regime, v: A) -> Option<A> {
    if g is Abstract {
        None
    } else {
        Some(v)
    }
}

/// Whether a regularity may stand for an irregular shape: it does unless it
/// records a center.
pub open spec fn irregular(regular: Option<RegularView>) -> bool {
    match regular {
        Some(r) => r == RegularView::No,
        None => true,
    }
}

/// Whether a regularity records that the shape is irregular.
pub open spec fn surely_irregular(regular: Option<RegularView>) -> bool {
    regular == Some(RegularView::No)
}

/// The name of a square.
pub open spec fn square_of(g: Regime) -> NameView {
    NameView::Quadrilateral { quad: wrapped(g, Quadrilateral::Square) }
}

/// The name of a rectangle.
pub open spec fn rectangle_of(g: Regime) -> NameView {
    NameView::Quadrilateral { quad: wrapped(g, Quadrilateral::Rectangle) }
}

/// The name of an orthodiagonal quadrilateral.
pub open spec fn orthodiagonal_of(g: Regime) -> NameView {
    NameView::Quadrilateral { quad: wrapped(g, Quadrilateral::Orthodiagonal) }
}

/// The name of the simplex of the given rank, counted from the nullitope at
/// zero.
pub open spec fn simplex_of(regular: Option<RegularView>, rank: nat) -> NameView {
    if rank == 0 {
        NameView::Nullitope
    } else if rank == 1 {
        NameView::Point
    } else if rank == 2 {
        NameView::Dyad
    } else if rank == 3 {
        NameView::Triangle { regular }
    } else {
        NameView::Simplex { regular, rank }
    }
}

/// The name of the block of the given rank, counted from the nullitope at
/// zero.
pub open spec fn hyperblock_of(regular: Option<RegularView>, rank: nat, g: Regime) -> NameView {
    if rank == 0 {
        NameView::Nullitope
    } else if rank == 1 {
        NameView::Point
    } else if rank == 2 {
        NameView::Dyad
    } else if rank == 3 {
        if surely_irregular(regular) {
            rectangle_of(g)
        } else {
            square_of(g)
        }
    } else if rank == 4 {
        NameView::Cuboid { regular }
    } else {
        NameView::Hyperblock { regular, rank }
    }
}

/// The name of the orthoplex of the given rank, counted from the nullitope
/// at zero.
pub open spec fn orthoplex_of(regular: Option<RegularView>, rank: nat, g: Regime) -> NameView {
    if rank == 0 {
        NameView::Nullitope
    } else if rank == 1 {
        NameView::Point
    } else if rank == 2 {
        NameView::Dyad
    } else if rank == 3 {
        if surely_irregular(regular) {
            orthodiagonal_of(g)
        } else {
            square_of(g)
        }
    } else {
        NameView::Orthoplex { regular, rank }
    }
}

/// The name of the polygon of `n` sides.
pub open spec fn polygon_of(regular: Option<RegularView>, n: nat, g: Regime) -> NameView {
    if n == 3 {
        NameView::Triangle { regular }
    } else if n == 4 && !surely_irregular(regular) {
        square_of(g)
    } else {
        NameView::Polygon { regular, n }
    }
}

/// The name of a polytope of which only the facet count and the rank,
/// counted from the nullitope at zero, are known.
pub open spec fn generic_of(n: nat, rank: nat, g: Regime) -> NameView {
    if rank == 0 {
        NameView::Nullitope
    } else if rank == 1 {
        NameView::Point
    } else if rank == 2 {
        NameView::Dyad
    } else if rank == 3 {
        polygon_of(default_regular(g), n, g)
    } else {
        NameView::Generic { facet_count: n, rank }
    }
}

/// What a product makes of one of the names it is given.
pub enum Absorb {
    /// The name makes the whole product a nullitope.
    Null,
    /// The name is an atom of the product, worth so many units.
    Units(nat),
    /// The name is a product of the same kind: its bases take its place.
    Splice(Seq<NameView>),
    /// The name stays as a base.
    Keep,
}

/// What the product of the given kind makes of `n`.
pub open spec fn absorb(kind: Product, n: NameView) -> Absorb {
    match kind {
        Product::Pyramid => match n {
            NameView::Nullitope => Absorb::Units(0),
            NameView::Point => Absorb::Units(1),
            NameView::Dyad => Absorb::Units(2),
            NameView::Triangle { .. } => Absorb::Units(3),
            NameView::Simplex { rank, .. } => Absorb::Units(rank),
            NameView::Multi(Product::Pyramid, bases) => Absorb::Splice(bases),
            _ => Absorb::Keep,
        },
        Product::Prism => match n {
            NameView::Nullitope => Absorb::Null,
            NameView::Point => Absorb::Units(0),
            NameView::Dyad => Absorb::Units(1),
            NameView::Quadrilateral { quad } => if quad == Some(Quadrilateral::Orthodiagonal) {
                Absorb::Keep
            } else {
                Absorb::Units(2)
            },
            NameView::Cuboid { .. } => Absorb::Units(3),
            NameView::Hyperblock { rank, .. } => if rank >= 1 {
                Absorb::Units((rank - 1) as nat)
            } else {
                Absorb::Units(0)
            },
            NameView::Multi(Product::Prism, bases) => Absorb::Splice(bases),
            _ => Absorb::Keep,
        },
        Product::Tegum => match n {
            NameView::Nullitope => Absorb::Null,
            NameView::Point => Absorb::Units(0),
            NameView::Dyad => Absorb::Units(1),
            NameView::Quadrilateral { quad } => if quad is None || quad == Some(
                Quadrilateral::Square,
            ) {
                Absorb::Units(2)
            } else {
                Absorb::Keep
            },
            NameView::Orthoplex { rank, .. } => if rank >= 1 {
                Absorb::Units((rank - 1) as nat)
            } else {
                Absorb::Units(0)
            },
            NameView::Multi(Product::Tegum, bases) => Absorb::Splice(bases),
            _ => Absorb::Keep,
        },
        Product::Comb => match n {
            NameView::Nullitope => Absorb::Null,
            NameView::Multi(Product::Comb, bases) => Absorb::Splice(bases),
            _ => Absorb::Keep,
        },
    }
}

/// Whether one of `bases` makes the whole product a nullitope.
pub open spec fn nullified(kind: Product, bases: Seq<NameView>) -> bool {
    exists|i: int| 0 <= i < bases.len() && absorb(kind, #[trigger] bases[i]) is Null
}

/// The bases that are left once the atoms of `bases` are taken out and the
/// products of the same kind are flattened, in the order given.
pub open spec fn gathered(kind: Product, bases: Seq<NameView>) -> Seq<NameView>
    decreases bases.len(),
{
    if bases.len() == 0 {
        Seq::empty()
    } else {
        let rest = gathered(kind, bases.drop_last());
        match absorb(kind, bases.last()) {
            Absorb::Splice(inner) => rest + inner,
            Absorb::Keep => rest.push(bases.last()),
            _ => rest,
        }
    }
}

/// The units that the atoms of `bases` are worth together.
pub open spec fn units(kind: Product, bases: Seq<NameView>) -> nat
    decreases bases.len(),
{
    if bases.len() == 0 {
        0
    } else {
        let rest = units(kind, bases.drop_last());
        match absorb(kind, bases.last()) {
            Absorb::Units(u) => rest + u,
            _ => rest,
        }
    }
}

/// The one atom that stands for `count` units of a product.
pub open spec fn atom_of(kind: Product, count: nat, g: Regime) -> NameView {
    match kind {
        Product::Pyramid => simplex_of(default_regular(g), count),
        Product::Prism => hyperblock_of(default_regular(g), count + 1, g),
        Product::Tegum => orthoplex_of(default_regular(g), count + 1, g),
        Product::Comb => NameView::Nullitope,
    }
}

/// The product of no polytope at all.
pub open spec fn identity(kind: Product) -> NameView {
    match kind {
        Product::Pyramid => NameView::Nullitope,
        Product::Comb => NameView::Nullitope,
        Product::Prism => NameView::Point,
        Product::Tegum => NameView::Point,
    }
}

/// The name of the product of `bases`, which are taken as they are: the
/// identity for none, the base itself for one, and a product node for more.
pub open spec fn collapse(kind: Product, bases: Seq<NameView>) -> NameView {
    if bases.len() == 0 {
        identity(kind)
    } else if bases.len() == 1 {
        bases[0]
    } else {
        NameView::Multi(kind, bases)
    }
}

/// The name that a pyramid of a pyramid, a prism of a prism or a tegum of a
/// tegum brings into the product: a dyad, a rectangle or an orthodiagonal
/// quadrilateral.
pub open spec fn double_unit(kind: Product, g: Regime) -> NameView {
    match kind {
        Product::Pyramid => NameView::Dyad,
        Product::Prism => rectangle_of(g),
        Product::Tegum => orthodiagonal_of(g),
        Product::Comb => NameView::Nullitope,
    }
}

/// The name that stands for one unit of a product.
pub open spec fn single_unit(kind: Product) -> NameView {
    match kind {
        Product::Pyramid => NameView::Point,
        Product::Prism => NameView::Dyad,
        Product::Tegum => NameView::Dyad,
        Product::Comb => NameView::Nullitope,
    }
}

/// The height of a list of two names.
pub proof fn lemma_seq_height_pair(a: NameView, b: NameView)
    ensures
        seq_height(seq![a, b]) == if height(a) >= height(b) {
            height(a)
        } else {
            height(b)
        },
{
    let s = seq![a, b];
    assert(s.drop_last() =~= seq![a]);
    assert(seq![a].drop_last() =~= Seq::<NameView>::empty());
    assert(seq_height(seq![a]) == height(a)) by {
        assert(seq_height(seq![a].drop_last()) == 0);
    }
}

/// The height of a list with one more name at its end.
pub proof fn lemma_seq_height_push(s: Seq<NameView>, x: NameView)
    ensures
        seq_height(s.push(x)) == if seq_height(s) >= height(x) {
            seq_height(s)
        } else {
            height(x)
        },
{
    assert(s.push(x).drop_last() =~= s);
}

/// No name of a list is higher than the list.
pub proof fn lemma_seq_height_bound(s: Seq<NameView>, i: int)
    requires
        0 <= i < s.len(),
    ensures
        height(s[i]) <= seq_height(s),
    decreases s.len(),
{
    if i < s.len() - 1 {
        lemma_seq_height_bound(s.drop_last(), i);
    }
}

/// No base that a product gathers is higher than the list it was gathered
/// from.
pub proof fn lemma_gathered_height(kind: Product, bases: Seq<NameView>)
    ensures
        forall|i: int|
            0 <= i < gathered(kind, bases).len() ==> height(#[trigger] gathered(kind, bases)[i])
                <= seq_height(bases),
    decreases bases.len(),
{
    if bases.len() > 0 {
        lemma_gathered_height(kind, bases.drop_last());
        let rest = gathered(kind, bases.drop_last());
        let last = bases.last();
        assert(seq_height(bases.drop_last()) <= seq_height(bases));
        assert(height(last) <= seq_height(bases));
        match absorb(kind, last) {
            Absorb::Splice(inner) => {
                assert(last == NameView::Multi(kind, inner));
                assert(height(last) == 1 + seq_height(inner));
                assert forall|i: int| 0 <= i < (rest + inner).len() implies height(
                    #[trigger] (rest + inner)[i],
                ) <= seq_height(bases) by {
                    if i >= rest.len() {
                        lemma_seq_height_bound(inner, i - rest.len());
                        assert((rest + inner)[i] == inner[i - rest.len()]);
                    } else {
                        assert((rest + inner)[i] == rest[i]);
                    }
                }
            },
            Absorb::Keep => {
                assert forall|i: int| 0 <= i < rest.push(last).len() implies height(
                    #[trigger] rest.push(last)[i],
                ) <= seq_height(bases) by {
                    if i < rest.len() {
                        assert(rest.push(last)[i] == rest[i]);
                    }
                }
            },
            _ => {},
        }
    }
}

/// What a single pyramid, prism or tegum makes of the name it is based on.
///
/// A low shape has a name of its own; an irregular simplex, block or
/// orthoplex becomes the next one; a pyramid of a pyramid, or of a
/// multipyramid, is folded into one multipyramid, and likewise for prisms
/// and tegums. Any other name is wrapped.
pub open spec fn single_of(kind: Product, n: NameView, g: Regime) -> NameView
    decreases 2 * height(n),
{
    let folded = match n {
        NameView::Single(k, base) => if k == kind && kind != Product::Comb {
            proof {
                lemma_seq_height_pair(double_unit(kind, g), *base);
            }
            Some(product_of(kind, seq![double_unit(kind, g), *base], g))
        } else {
            None
        },
        NameView::Multi(k, bases) => if k == kind && kind != Product::Comb {
            proof {
                lemma_seq_height_push(bases, single_unit(kind));
            }
            Some(product_of(kind, bases.push(single_unit(kind)), g))
        } else {
            None
        },
        _ => None,
    };
    match folded {
        Some(r) => r,
        None => single_leaf(kind, n, g),
    }
}

/// What a single pyramid, prism or tegum makes of a name that it does not
/// fold into a product.
pub open spec fn single_leaf(kind: Product, n: NameView, g: Regime) -> NameView {
    let wrap = NameView::Single(kind, Box::new(n));
    match kind {
        Product::Pyramid => match n {
            NameView::Nullitope => NameView::Point,
            NameView::Point => NameView::Dyad,
            NameView::Dyad => NameView::Triangle { regular: default_regular(g) },
            NameView::Triangle { regular } => if irregular(regular) {
                simplex_of(default_regular(g), 4)
            } else {
                wrap
            },
            NameView::Simplex { regular, rank } => if irregular(regular) {
                simplex_of(default_regular(g), rank + 1)
            } else {
                wrap
            },
            _ => wrap,
        },
        Product::Prism => match n {
            NameView::Nullitope => NameView::Nullitope,
            NameView::Point => NameView::Dyad,
            NameView::Dyad => rectangle_of(g),
            NameView::Quadrilateral { quad } => if quad == Some(Quadrilateral::Orthodiagonal) {
                wrap
            } else {
                NameView::Cuboid { regular: default_regular(g) }
            },
            NameView::Cuboid { regular } => if irregular(regular) {
                hyperblock_of(default_regular(g), 5, g)
            } else {
                wrap
            },
            NameView::Hyperblock { regular, rank } => if irregular(regular) {
                hyperblock_of(default_regular(g), rank + 1, g)
            } else {
                wrap
            },
            _ => wrap,
        },
        Product::Tegum => match n {
            NameView::Nullitope => NameView::Nullitope,
            NameView::Point => NameView::Dyad,
            NameView::Dyad => orthodiagonal_of(g),
            NameView::Quadrilateral { quad } => if quad == Some(Quadrilateral::Rectangle) {
                wrap
            } else {
                orthoplex_of(default_regular(g), 4, g)
            },
            NameView::Orthoplex { regular, rank } => if irregular(regular) {
                orthoplex_of(default_regular(g), rank + 1, g)
            } else {
                wrap
            },
            _ => wrap,
        },
        Product::Comb => wrap,
    }
}

/// What a product makes of the names it is given.
///
/// A nullitope among the names makes a prism, tegum or comb product a
/// nullitope. Otherwise the atoms are taken out and counted, the products
/// of the same kind are flattened, two units or more are put back as one
/// atom, the bases are sorted and collapsed, and a single unit is applied
/// as a single pyramid, prism or tegum.
pub open spec fn product_of(kind: Product, bases: Seq<NameView>, g: Regime) -> NameView
    decreases 2 * seq_height(bases) + 1,
{
    let kept = gathered(kind, bases);
    let count = units(kind, bases);
    if nullified(kind, bases) {
        NameView::Nullitope
    } else if count == 1 {
        let base = collapse(kind, sort(kept));
        if is_multi(kind, base) {
            NameView::Single(kind, Box::new(base))
        } else if kept.len() == 1 {
            proof {
                lemma_gathered_height(kind, bases);
                lemma_sort_single(kept);
            }
            single_of(kind, kept[0], g)
        } else {
            single_leaf(kind, base, g)
        }
    } else if count >= 2 {
        collapse(kind, sort(kept.push(atom_of(kind, count, g))))
    } else {
        collapse(kind, sort(kept))
    }
}

/// Whether a single pyramid, prism or tegum of `n` can be made within the
/// limits of the machine: the rank that it counts up fits the machine's
/// word, or the product that it is folded into is ready.
pub open spec fn single_ready(kind: Product, n: NameView, g: Regime) -> bool
    decreases 2 * height(n),
{
    let folded = match n {
        NameView::Single(k, base) => if k == kind && kind != Product::Comb {
            proof {
                lemma_seq_height_pair(double_unit(kind, g), *base);
            }
            Some(product_ready(kind, seq![double_unit(kind, g), *base], g))
        } else {
            None
        },
        NameView::Multi(k, bases) => if k == kind && kind != Product::Comb {
            proof {
                lemma_seq_height_push(bases, single_unit(kind));
            }
            Some(product_ready(kind, bases.push(single_unit(kind)), g))
        } else {
            None
        },
        _ => None,
    };
    match folded {
        Some(r) => r,
        None => fits(single_leaf(kind, n, g)),
    }
}

/// Whether the product of `bases` can be made within the limits of the
/// machine.
///
/// A product that a nullitope brings to nothing always can. Otherwise the
/// rank and the facet count of every base that the product gathers must be
/// within those limits, since the bases are sorted by them; so must the
/// atom that two units or more are put back as; and a single unit must be
/// ready to be applied to the one base that is left.
pub open spec fn product_ready(kind: Product, bases: Seq<NameView>, g: Regime) -> bool
    decreases 2 * seq_height(bases) + 1,
{
    let kept = gathered(kind, bases);
    let count = units(kind, bases);
    nullified(kind, bases) || {
        &&& forall|i: int| 0 <= i < kept.len() ==> measurable(#[trigger] kept[i])
        &&& count >= 2 ==> fits(atom_of(kind, count, g)) && measurable(atom_of(kind, count, g))
        &&& count == 1 && kept.len() == 1 && !is_multi(kind, kept[0]) ==> {
            proof {
                lemma_gathered_height(kind, bases);
            }
            single_ready(kind, kept[0], g)
        }
    }
}

/// What a pyramid makes of the name it is based on.
pub open spec fn pyramid_of(n: NameView, g: Regime) -> NameView {
    single_of(Product::Pyramid, n, g)
}

/// What a prism makes of the name it is based on.
pub open spec fn prism_of(n: NameView, g: Regime) -> NameView {
    single_of(Product::Prism, n, g)
}

/// What a tegum makes of the name it is based on.
pub open spec fn tegum_of(n: NameView, g: Regime) -> NameView {
    single_of(Product::Tegum, n, g)
}

/// What a multipyramid makes of the names it is given.
pub open spec fn multipyramid_of(bases: Seq<NameView>, g: Regime) -> NameView {
    product_of(Product::Pyramid, bases, g)
}

/// What a multiprism makes of the names it is given.
pub open spec fn multiprism_of(bases: Seq<NameView>, g: Regime) -> NameView {
    product_of(Product::Prism, bases, g)
}

/// What a multitegum makes of the names it is given.
pub open spec fn multitegum_of(bases: Seq<NameView>, g: Regime) -> NameView {
    product_of(Product::Tegum, bases, g)
}

/// What a multicomb makes of the names it is given.
pub open spec fn multicomb_of(bases: Seq<NameView>, g: Regime) -> NameView {
    product_of(Product::Comb, bases, g)
}

/// What an antiprism makes of the name it is based on.
pub open spec fn antiprism_of(n: NameView, g: Regime) -> NameView {
    match n {
        NameView::Nullitope => NameView::Point,
        NameView::Point => NameView::Dyad,
        NameView::Dyad => orthodiagonal_of(g),
        NameView::Simplex { rank, .. } => orthoplex_of(default_regular(g), rank + 1, g),
        _ => NameView::Antiprism { base: Box::new(n) },
    }
}

/// What a ditope of the given rank makes of the name it is based on.
pub open spec fn ditope_of(n: NameView, rank: nat, g: Regime) -> NameView {
    match n {
        NameView::Nullitope => NameView::Nullitope,
        NameView::Point => NameView::Dyad,
        NameView::Dyad => polygon_of(default_regular(g), 2, g),
        _ => NameView::Ditope { base: Box::new(n), rank },
    }
}

/// What a hosotope of the given rank makes of the name it is based on.
pub open spec fn hosotope_of(n: NameView, rank: nat, g: Regime) -> NameView {
    match n {
        NameView::Nullitope => NameView::Nullitope,
        NameView::Point => NameView::Dyad,
        NameView::Dyad => polygon_of(default_regular(g), 2, g),
        _ => NameView::Hosotope { base: Box::new(n), rank },
    }
}

/// What a Petrial makes of the name it is based on: Petrials are
/// involutions.
pub open spec fn petrial_of(n: NameView) -> NameView {
    match n {
        NameView::Petrial { base } => *base,
        _ => NameView::Petrial { base: Box::new(n) },
    }
}

/// The product that the dual of a product is.
pub open spec fn dual_kind(kind: Product) -> Product {
    match kind {
        Product::Pyramid => Product::Pyramid,
        Product::Prism => Product::Tegum,
        Product::Tegum => Product::Prism,
        Product::Comb => Product::Comb,
    }
}

/// Whether the center `c` matches the center `d`: they are the same, or
/// one of them is not held.
pub open spec fn centers_agree(c: Option<Seq<i64>>, d: Option<Seq<i64>>) -> bool {
    match (c, d) {
        (Some(a), Some(b)) => a == b,
        _ => true,
    }
}

/// The regularity of the dual, around `c`, of a shape of the regularity
/// `regular`: the dual stays regular only where `c` lies within the
/// tolerance of the center of the shape.
pub open spec fn regular_dual(
    regular: Option<RegularView>,
    c: Option<Seq<i64>>,
    g: Regime,
) -> Option<RegularView> {
    match regular {
        Some(RegularView::Yes { center }) => match (c, g) {
            (Some(d), Regime::Concrete { eps }) => if close(d, center, eps) {
                regular
            } else {
                Some(RegularView::No)
            },
            _ => Some(RegularView::No),
        },
        _ => regular,
    }
}

/// Whether the dual of `n` around `c` can be made within the limits of the
/// machine. Where `n` is the dual of a base around another center, the
/// rank and the facet count of the base must be within those limits, since
/// the dual is known by them alone.
pub open spec fn dual_ready(n: NameView, c: Option<Seq<i64>>, g: Regime) -> bool {
    g !is Abstract ==> (n matches NameView::Dual { base, center } ==> centers_agree(c, center)
        || measurable(*base))
}

/// The duals around `c` of the names of a list.
pub open spec fn duals_of(bases: Seq<NameView>, c: Option<Seq<i64>>, g: Regime) -> Seq<NameView>
    decreases bases,
{
    Seq::new(
        bases.len(),
        |i: int|
            if 0 <= i < bases.len() {
                dual_of(bases[i], c, g)
            } else {
                NameView::Nullitope
            },
    )
}

/// What the dual around `c` makes of a name.
///
/// The lowest shapes are their own duals. The dual of a regular shape is
/// regular only around its own center. The dual of a dual around the same
/// center is the shape itself; around another center it is known only by
/// the facet count and the rank of the shape, where the name tells them. In
/// the abstract regime the dual goes through pyramids, prisms, tegums and
/// products; in the concrete regime it wraps them.
pub open spec fn dual_of(n: NameView, c: Option<Seq<i64>>, g: Regime) -> NameView
    decreases n,
{
    let wrap = NameView::Dual { base: Box::new(n), center: c };
    match n {
        NameView::Nullitope => n,
        NameView::Point => n,
        NameView::Dyad => n,
        NameView::Triangle { regular } => NameView::Triangle {
            regular: regular_dual(regular, c, g),
        },
        NameView::Quadrilateral { quad } => if quad is None || quad == Some(
            Quadrilateral::Orthodiagonal,
        ) {
            polygon_of(default_regular(g), 4, g)
        } else {
            orthodiagonal_of(g)
        },
        NameView::Dual { base, center } => if centers_agree(c, center) {
            *base
        } else {
            match (facet_count_of(*base), rank_of(*base)) {
                (Some(f), Some(r)) => if r >= -1 {
                    generic_of(f, (r + 1) as nat, g)
                } else {
                    wrap
                },
                _ => wrap,
            }
        },
        NameView::Polygon { regular, n } => polygon_of(regular_dual(regular, c, g), n, g),
        NameView::Simplex { regular, rank } => simplex_of(regular_dual(regular, c, g), rank),
        NameView::Cuboid { regular } => orthoplex_of(regular_dual(regular, c, g), 4, g),
        NameView::Hyperblock { regular, rank } => orthoplex_of(
            regular_dual(regular, c, g),
            rank,
            g,
        ),
        NameView::Orthoplex { regular, rank } => hyperblock_of(
            regular_dual(regular, c, g),
            rank,
            g,
        ),
        NameView::Single(kind, base) => if g is Abstract {
            NameView::Single(dual_kind(kind), Box::new(dual_of(*base, c, g)))
        } else {
            wrap
        },
        NameView::Multi(kind, bases) => if g is Abstract {
            NameView::Multi(dual_kind(kind), duals_of(bases, c, g))
        } else {
            wrap
        },
        NameView::Antiprism { base } => NameView::Antitegum { base, center: c },
        NameView::Antitegum { base, center } => if centers_agree(c, center) {
            NameView::Antiprism { base }
        } else {
            wrap
        },
        _ => wrap,
    }
}

/// The components of a list, where the components of each compound of the
/// list take its place.
pub open spec fn flatten_parts(parts: Seq<(nat, NameView)>) -> Seq<(nat, NameView)>
    decreases parts.len(),
{
    if parts.len() == 0 {
        Seq::empty()
    } else {
        let rest = flatten_parts(parts.drop_last());
        match parts.last().1 {
            NameView::Compound(inner) => rest + inner,
            _ => rest.push(parts.last()),
        }
    }
}

/// The first place of `parts` that holds the name `x`, or the length of
/// `parts` where none does.
pub open spec fn find_part(parts: Seq<(nat, NameView)>, x: NameView) -> int
    decreases parts.len(),
{
    if parts.len() == 0 {
        0
    } else {
        let k = find_part(parts.drop_last(), x);
        if k < parts.len() - 1 {
            k
        } else if parts.last().1 == x {
            parts.len() - 1
        } else {
            parts.len() as int
        }
    }
}

/// The components of a list with equal names merged: each name stands
/// where it stood first, with the sum of its multiplicities.
pub open spec fn merge_parts(parts: Seq<(nat, NameView)>) -> Seq<(nat, NameView)>
    decreases parts.len(),
{
    if parts.len() == 0 {
        Seq::empty()
    } else {
        let rest = merge_parts(parts.drop_last());
        let p = parts.last();
        let k = find_part(rest, p.1);
        if 0 <= k < rest.len() {
            rest.update(k, (rest[k].0 + p.0, p.1))
        } else {
            rest.push(p)
        }
    }
}

/// What a compound makes of its components.
///
/// The components are sorted, the components of each compound among them
/// take its place, and they are sorted again. Equal names are merged, their
/// multiplicities summed. A single component that is left stands for
/// itself.
pub open spec fn compound_of(parts: Seq<(nat, NameView)>) -> NameView {
    let merged = merge_parts(sort_parts(flatten_parts(sort_parts(parts))));
    if merged.len() == 1 {
        merged[0].1
    } else {
        NameView::Compound(merged)
    }
}

} // verus!
