use miratope_lang::data::{AbsData, ConData, NameData, Point, Quadrilateral, Regular};
use miratope_lang::measure::Measure;
use miratope_lang::model::Product;
use miratope_lang::name::Name;
use miratope_lang::regime::{Abs, Con, Double, NameType, Precision, Single};

type A = Name<Abs>;
type C = Name<Con<Double>>;

fn irregular() -> ConData<Regular> {
    ConData(Regular::No)
}

fn regular() -> ConData<Regular> {
    ConData(Regular::Yes { center: Point::new(vec![0]) })
}

fn generic(facet_count: usize, rank: usize) -> C {
    C::Generic { facet_count, rank }
}

#[test]
fn measure_tells_rank_and_facets() {
    assert_eq!(generic(9, 6).measure(), Some(Measure { rank: Some(5), facets: Some(9) }));
    assert_eq!(
        C::Petrial { base: Box::new(C::Dyad) }.measure(),
        Some(Measure { rank: Some(1), facets: None })
    );
    assert_eq!(C::Compound(Vec::new()).measure(), Some(Measure { rank: None, facets: Some(0) }));
    assert!(generic(9, 6).is_measurable());
}

#[test]
fn checked_rank_tells_when_a_rank_does_not_fit() {
    assert_eq!(generic(9, 6).checked_rank(), Some(Some(5)));
    assert_eq!(C::Compound(Vec::new()).checked_rank(), Some(None));
    assert_eq!(generic(9, usize::MAX).checked_rank(), None);
    assert_eq!(C::Pyramid(Box::new(generic(9, usize::MAX))).checked_rank(), None);
    let top = generic(9, isize::MAX as usize + 1);
    assert_eq!(top.checked_rank(), Some(Some(isize::MAX)));
    assert_eq!(C::Pyramid(Box::new(top.clone())).checked_rank(), None);
    assert_eq!(C::Multiprism(vec![top.clone(), generic(3, 4)]).checked_rank(), None);
    assert_eq!(
        C::Multiprism(vec![top.clone(), C::Nullitope]).checked_rank(),
        Some(Some(isize::MAX - 1))
    );
    // The rank of a ditope is told by the ditope alone.
    assert_eq!(
        C::Ditope { base: Box::new(generic(9, usize::MAX)), rank: 4 }.checked_rank(),
        Some(Some(3))
    );
}

#[test]
fn checked_facet_count_tells_when_a_count_does_not_fit() {
    assert_eq!(generic(9, 6).checked_facet_count(), Some(Some(9)));
    assert_eq!(C::Petrial { base: Box::new(C::Dyad) }.checked_facet_count(), Some(None));
    let many = generic(usize::MAX, 6);
    assert_eq!(many.checked_facet_count(), Some(Some(usize::MAX)));
    assert_eq!(C::Pyramid(Box::new(many.clone())).checked_facet_count(), None);
    assert_eq!(C::Tegum(Box::new(many.clone())).checked_facet_count(), None);
    assert_eq!(C::Multipyramid(vec![many.clone(), C::Dyad]).checked_facet_count(), None);
    assert_eq!(
        C::Multipyramid(vec![many.clone(), C::Dyad, C::Nullitope]).checked_facet_count(),
        Some(Some(0))
    );
    assert_eq!(C::Multiprism(vec![many.clone(), C::Dyad]).checked_facet_count(), None);
    assert_eq!(C::Compound(vec![(2, many.clone())]).checked_facet_count(), None);
    assert_eq!(
        C::Orthoplex { regular: irregular(), rank: 500 }.checked_facet_count(),
        None
    );
    // The facet count of a dual is unknown, whatever its base.
    let dual = C::Dual {
        base: Box::new(C::Pyramid(Box::new(many))),
        center: ConData(Point::new(vec![])),
    };
    assert_eq!(dual.checked_facet_count(), Some(None));
    assert!(dual.is_measurable());
}

#[test]
fn a_single_can_be_made_unless_a_rank_runs_over() {
    assert!(C::Point.can_single(Product::Pyramid));
    assert!(generic(9, 6).can_single(Product::Prism));
    let last = C::Simplex { regular: irregular(), rank: usize::MAX };
    assert!(!last.can_single(Product::Pyramid));
    assert!(last.can_single(Product::Prism));
    let kept = C::Simplex { regular: regular(), rank: usize::MAX };
    assert!(kept.can_single(Product::Pyramid));
    assert!(!C::Hyperblock { regular: irregular(), rank: usize::MAX }.can_single(Product::Prism));
    assert!(!C::Orthoplex { regular: irregular(), rank: usize::MAX }.can_single(Product::Tegum));
    assert!(!A::Simplex { regular: AbsData, rank: usize::MAX }.can_single(Product::Pyramid));
    assert!(generic(9, 6).can_single(Product::Comb));
}

#[test]
fn a_single_of_a_single_can_be_made_if_the_product_can() {
    let base = generic(9, usize::MAX);
    assert!(!C::Pyramid(Box::new(base.clone())).can_single(Product::Pyramid));
    assert!(C::Prism(Box::new(base.clone())).can_single(Product::Pyramid));
    assert!(C::Pyramid(Box::new(generic(9, 6))).can_single(Product::Pyramid));
    let product = C::Multipyramid(vec![generic(9, 6), base]);
    assert!(!product.can_single(Product::Pyramid));
    assert!(product.can_single(Product::Prism));
}

#[test]
fn a_product_can_be_made_unless_its_numbers_run_over() {
    assert!(C::can_multiply(Product::Pyramid, &vec![C::Point, generic(9, 6)]));
    // The bases are sorted by rank: it must fit.
    assert!(!C::can_multiply(Product::Pyramid, &vec![generic(9, usize::MAX), C::Dyad]));
    // A nullitope brings a prism product to nothing, whatever else there is.
    assert!(C::can_multiply(Product::Prism, &vec![generic(9, usize::MAX), C::Nullitope]));
    // The units of the atoms must fit.
    let last = C::Simplex { regular: irregular(), rank: usize::MAX };
    assert!(!C::can_multiply(Product::Pyramid, &vec![last, C::Point]));
    let high = C::Simplex { regular: irregular(), rank: isize::MAX as usize };
    assert!(C::can_multiply(Product::Pyramid, &vec![high.clone(), C::Point]));
    assert!(!C::can_multiply(Product::Pyramid, &vec![high.clone(), high]));
    // The atom that the units are put back as must be measurable.
    let wide = C::Orthoplex { regular: irregular(), rank: 40 };
    assert!(C::can_multiply(Product::Tegum, &vec![wide.clone(), C::Dyad]));
    assert!(!C::can_multiply(Product::Tegum, &vec![wide.clone(), wide]));
    // The bases of a product among the names are sorted as well.
    let inner = C::Multipyramid(vec![generic(9, usize::MAX), generic(9, 6)]);
    assert!(!C::can_multiply(Product::Pyramid, &vec![inner.clone(), C::Dyad]));
    assert!(!C::can_multiply(Product::Prism, &vec![inner, C::Dyad]));
}

#[test]
fn an_antiprism_can_be_made_unless_a_rank_runs_over() {
    assert!(generic(9, 6).can_antiprism());
    assert!(C::Simplex { regular: irregular(), rank: 4 }.can_antiprism());
    assert!(!C::Simplex { regular: irregular(), rank: usize::MAX }.can_antiprism());
}

#[test]
fn a_dual_can_be_made_unless_a_generic_name_cannot_be_told() {
    let center = |x: i64| ConData(Point::new(vec![x]));
    let base = C::Pyramid(Box::new(generic(usize::MAX, 6)));
    let dual = C::Dual { base: Box::new(base), center: center(0) };
    assert!(dual.can_dual(&center(0)));
    assert!(!dual.can_dual(&center(1)));
    assert!(generic(9, 6).can_dual(&center(1)));
    let fine = C::Dual { base: Box::new(generic(9, 6)), center: center(0) };
    assert!(fine.can_dual(&center(1)));
    let phantom = A::Dual {
        base: Box::new(A::Pyramid(Box::new(A::Generic { facet_count: usize::MAX, rank: 6 }))),
        center: AbsData,
    };
    assert!(phantom.can_dual(&AbsData));
}

#[test]
fn a_compound_is_made_unless_its_numbers_run_over() {
    let a = generic(7, 5);
    let b = generic(8, 5);
    let made = C::checked_compound(vec![(2, a.clone()), (3, b.clone())]);
    assert!(made == Some(C::Compound(vec![(2, a.clone()), (3, b.clone())])));
    let over = C::checked_compound(vec![(usize::MAX, a.clone()), (1, a.clone()), (1, b.clone())]);
    assert!(over.is_none());
    // A single component that is left stands for itself, whatever its
    // multiplicity.
    let alone = C::checked_compound(vec![(usize::MAX, a.clone()), (1, a.clone())]);
    assert!(alone == Some(a.clone()));
    // The components are sorted by rank: it must fit.
    assert!(C::checked_compound(vec![(1, generic(7, usize::MAX)), (1, a.clone())]).is_none());
    let inner = C::Compound(vec![(1, generic(7, usize::MAX)), (1, b)]);
    assert!(C::checked_compound(vec![(1, inner), (1, a)]).is_none());
}

#[test]
fn wrappers_tell_whether_they_hold() {
    let held: ConData<Quadrilateral> = NameData::new(Quadrilateral::Rectangle);
    assert!(held.is_held());
    assert!(!NameData::<Quadrilateral>::is_held(&AbsData));
}

#[test]
fn only_the_concrete_regimes_have_a_tolerance() {
    assert_eq!(Abs::eps(), None);
    assert_eq!(Con::<Single>::eps(), Some(10_000_000));
    assert_eq!(Con::<Double>::eps(), Some(1_000));
    assert_eq!(Single::eps(), 10_000_000);
    assert_eq!(Double::eps(), 1_000);
    assert!(Abs::is_abstract());
    assert!(!Con::<Double>::is_abstract());
}
