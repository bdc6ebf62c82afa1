use miratope_lang::data::{ConData, Point, Regular};
use miratope_lang::model::Product;
use miratope_lang::name::Name;
use miratope_lang::product::Class;
use miratope_lang::regime::{Abs, Con, Double};

type A = Name<Abs>;
type C = Name<Con<Double>>;

fn irregular() -> ConData<Regular> {
    ConData(Regular::No)
}

fn center(coords: Vec<i64>) -> ConData<Point> {
    ConData(Point::new(coords))
}

fn generic(facet_count: usize, rank: usize) -> C {
    C::Generic { facet_count, rank }
}

#[test]
fn rank_of_the_low_shapes() {
    assert_eq!(C::Nullitope.rank(), Some(-1));
    assert_eq!(C::Point.rank(), Some(0));
    assert_eq!(C::Dyad.rank(), Some(1));
    assert_eq!(C::Triangle { regular: irregular() }.rank(), Some(2));
    assert_eq!(C::square().rank(), Some(2));
    assert_eq!(C::Polygon { regular: irregular(), n: 7 }.rank(), Some(2));
}

#[test]
fn rank_of_the_families_counts_from_the_nullitope() {
    assert_eq!(C::Simplex { regular: irregular(), rank: 4 }.rank(), Some(3));
    assert_eq!(C::Cuboid { regular: irregular() }.rank(), Some(3));
    assert_eq!(C::Hyperblock { regular: irregular(), rank: 5 }.rank(), Some(4));
    assert_eq!(C::Orthoplex { regular: irregular(), rank: 4 }.rank(), Some(3));
    assert_eq!(generic(9, 6).rank(), Some(5));
    assert_eq!(C::Ditope { base: Box::new(generic(9, 6)), rank: 7 }.rank(), Some(6));
    assert_eq!(C::Hosotope { base: Box::new(generic(9, 6)), rank: 7 }.rank(), Some(6));
}

#[test]
fn rank_of_modified_names() {
    assert_eq!(C::Pyramid(Box::new(generic(9, 6))).rank(), Some(6));
    assert_eq!(C::Prism(Box::new(generic(9, 6))).rank(), Some(6));
    assert_eq!(C::Tegum(Box::new(generic(9, 6))).rank(), Some(6));
    assert_eq!(C::Antiprism { base: Box::new(generic(9, 6)) }.rank(), Some(6));
    assert_eq!(
        C::Antitegum { base: Box::new(generic(9, 6)), center: center(vec![0]) }.rank(),
        Some(6)
    );
    assert_eq!(C::Petrial { base: Box::new(generic(9, 6)) }.rank(), Some(5));
    assert_eq!(C::Dual { base: Box::new(generic(9, 6)), center: center(vec![0]) }.rank(), Some(5));
    assert_eq!(C::Small(Box::new(generic(9, 6))).rank(), Some(5));
    assert_eq!(C::Great(Box::new(generic(9, 6))).rank(), Some(5));
    assert_eq!(C::Stellated(Box::new(generic(9, 6))).rank(), Some(5));
}

#[test]
fn rank_of_products() {
    let bases = || vec![generic(9, 6), generic(7, 5), C::Dyad];
    assert_eq!(C::Multipyramid(bases()).rank(), Some(12));
    assert_eq!(C::Multicomb(bases()).rank(), Some(12));
    assert_eq!(C::Multiprism(bases()).rank(), Some(10));
    assert_eq!(C::Multitegum(bases()).rank(), Some(10));
}

#[test]
fn rank_of_a_compound_is_that_of_its_first_component() {
    let name = C::Compound(vec![(2, generic(9, 6)), (3, generic(7, 5))]);
    assert_eq!(name.rank(), Some(5));
    assert_eq!(C::Compound(Vec::new()).rank(), None);
}

#[test]
fn facet_count_of_the_low_shapes() {
    assert_eq!(C::Nullitope.facet_count(), Some(0));
    assert_eq!(C::Point.facet_count(), Some(1));
    assert_eq!(C::Dyad.facet_count(), Some(2));
    assert_eq!(C::Triangle { regular: irregular() }.facet_count(), Some(3));
    assert_eq!(C::rectangle().facet_count(), Some(4));
    assert_eq!(C::Polygon { regular: irregular(), n: 7 }.facet_count(), Some(7));
    assert_eq!(generic(9, 6).facet_count(), Some(9));
}

#[test]
fn facet_count_of_the_families() {
    // A simplex has one facet more than its rank.
    assert_eq!(C::Simplex { regular: irregular(), rank: 4 }.facet_count(), Some(4));
    assert_eq!(C::Simplex { regular: irregular(), rank: 8 }.facet_count(), Some(8));
    // A block has twice as many facets as its rank.
    assert_eq!(C::Cuboid { regular: irregular() }.facet_count(), Some(6));
    assert_eq!(C::Hyperblock { regular: irregular(), rank: 5 }.facet_count(), Some(8));
    // An orthoplex has two to the power of its rank.
    assert_eq!(C::Orthoplex { regular: irregular(), rank: 4 }.facet_count(), Some(8));
    assert_eq!(C::Orthoplex { regular: irregular(), rank: 11 }.facet_count(), Some(1024));
}

#[test]
fn facet_count_of_modified_names() {
    assert_eq!(C::Pyramid(Box::new(generic(9, 6))).facet_count(), Some(10));
    assert_eq!(C::Prism(Box::new(generic(9, 6))).facet_count(), Some(20));
    assert_eq!(C::Tegum(Box::new(generic(9, 6))).facet_count(), Some(18));
}

#[test]
fn facet_count_of_products() {
    let bases = || vec![generic(9, 6), generic(7, 5), C::Dyad];
    assert_eq!(C::Multipyramid(bases()).facet_count(), Some(126));
    assert_eq!(C::Multitegum(bases()).facet_count(), Some(126));
    assert_eq!(C::Multiprism(bases()).facet_count(), Some(18));
    assert_eq!(C::Multicomb(bases()).facet_count(), Some(18));
    assert_eq!(C::Multipyramid(vec![generic(9, 6), C::Nullitope]).facet_count(), Some(0));
}

#[test]
fn facet_count_of_a_compound_weighs_its_components() {
    let name = C::Compound(vec![(2, generic(9, 6)), (3, generic(7, 6))]);
    assert_eq!(name.facet_count(), Some(39));
}

#[test]
fn facet_count_of_a_dual_is_unknown() {
    let dual = C::Dual { base: Box::new(C::Dyad), center: center(vec![0]) };
    assert_eq!(dual.facet_count(), None);
    assert_eq!(C::Pyramid(Box::new(dual.clone())).facet_count(), None);
    assert_eq!(C::Multiprism(vec![C::Dyad, dual.clone()]).facet_count(), None);
    assert_eq!(C::Multipyramid(vec![dual.clone(), C::Nullitope]).facet_count(), None);
    assert_eq!(C::Compound(vec![(1, C::Dyad), (1, dual)]).facet_count(), None);
    assert_eq!(C::Petrial { base: Box::new(C::Dyad) }.facet_count(), None);
}

#[test]
fn unknown_rank_goes_up_the_tree() {
    let unknown = C::Compound(Vec::new());
    assert_eq!(C::Pyramid(Box::new(unknown.clone())).rank(), None);
    assert_eq!(C::Dual { base: Box::new(unknown.clone()), center: center(vec![]) }.rank(), None);
    assert_eq!(C::Multiprism(vec![C::Dyad, unknown]).rank(), None);
}

#[test]
fn sort_key_is_rank_then_facets() {
    assert_eq!(generic(9, 6).sort_key(), (5, 9));
    assert_eq!(C::Compound(Vec::new()).sort_key(), (-2, 0));
    assert_eq!(C::Petrial { base: Box::new(C::Dyad) }.sort_key(), (1, 0));
}

#[test]
fn sort_bases_is_stable() {
    let a = C::Small(Box::new(generic(7, 5)));
    let b = C::Great(Box::new(generic(7, 5)));
    let c = generic(3, 4);
    let d = generic(8, 5);
    let sorted = C::sort_bases(vec![d.clone(), b.clone(), a.clone(), c.clone()]);
    assert!(sorted == vec![c, b, a, d]);
}

#[test]
fn classes_of_names_under_each_product() {
    assert!(matches!(C::Nullitope.classify(Product::Pyramid), Class::Units(0)));
    assert!(matches!(C::Nullitope.classify(Product::Prism), Class::Null));
    assert!(matches!(C::Nullitope.classify(Product::Tegum), Class::Null));
    assert!(matches!(C::Nullitope.classify(Product::Comb), Class::Null));
    assert!(matches!(C::Dyad.classify(Product::Pyramid), Class::Units(2)));
    assert!(matches!(C::Dyad.classify(Product::Prism), Class::Units(1)));
    assert!(matches!(C::Dyad.classify(Product::Comb), Class::Keep));
    assert!(matches!(
        C::Simplex { regular: irregular(), rank: 6 }.classify(Product::Pyramid),
        Class::Units(6)
    ));
    assert!(matches!(
        C::Hyperblock { regular: irregular(), rank: 6 }.classify(Product::Prism),
        Class::Units(5)
    ));
    assert!(matches!(
        C::Orthoplex { regular: irregular(), rank: 6 }.classify(Product::Tegum),
        Class::Units(5)
    ));
    assert!(matches!(C::Cuboid { regular: irregular() }.classify(Product::Prism), Class::Units(3)));
    assert!(matches!(C::rectangle().classify(Product::Prism), Class::Units(2)));
    assert!(matches!(C::orthodiagonal().classify(Product::Prism), Class::Keep));
    assert!(matches!(C::square().classify(Product::Tegum), Class::Units(2)));
    assert!(matches!(C::orthodiagonal().classify(Product::Tegum), Class::Keep));
    assert!(matches!(C::rectangle().classify(Product::Tegum), Class::Keep));
    assert!(matches!(A::square().classify(Product::Tegum), Class::Units(2)));
    assert!(matches!(A::square().classify(Product::Prism), Class::Units(2)));
    assert!(matches!(C::Multiprism(vec![]).classify(Product::Prism), Class::Splice));
    assert!(matches!(C::Multiprism(vec![]).classify(Product::Tegum), Class::Keep));
}

#[test]
fn names_are_equal_by_structure() {
    let a = C::Multipyramid(vec![generic(9, 6), C::Dual {
        base: Box::new(C::Dyad),
        center: center(vec![1, 2]),
    }]);
    let b = a.clone();
    assert!(a == b);
    assert!(a.same(&b));
    let c = C::Multipyramid(vec![generic(9, 6), C::Dual {
        base: Box::new(C::Dyad),
        center: center(vec![1, 3]),
    }]);
    assert!(a != c);
    assert!(C::Pyramid(Box::new(C::Dyad)) != C::Prism(Box::new(C::Dyad)));
    assert!(generic(9, 6) != generic(9, 7));
    assert!(C::Compound(vec![(1, C::Dyad)]) != C::Compound(vec![(2, C::Dyad)]));
}

#[test]
fn into_mut_applies_to_the_name_in_place() {
    let mut name = C::Point;
    name.into_mut(|n| n.pyramid());
    assert!(name == C::Dyad);
    name.into_mut(|n| n.petrial());
    assert!(name == C::Petrial { base: Box::new(C::Dyad) });
}

#[test]
fn the_default_name_is_the_nullitope() {
    assert!(C::default() == C::Nullitope);
    assert!(A::default() == A::Nullitope);
}
