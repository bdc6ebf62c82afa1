use miratope_lang::data::{AbsData, ConData, NameData, Point, Quadrilateral, Regular};
use miratope_lang::name::Name;
use miratope_lang::regime::{Abs, Con, Double, Single};

type A = Name<Abs>;
type C = Name<Con<Double>>;

fn irregular() -> ConData<Regular> {
    ConData(Regular::No)
}

fn regular_at(coords: Vec<i64>) -> ConData<Regular> {
    ConData(Regular::Yes { center: Point::new(coords) })
}

fn center(coords: Vec<i64>) -> ConData<Point> {
    ConData(Point::new(coords))
}

fn petrial_of_cube() -> C {
    C::Petrial { base: Box::new(C::Cuboid { regular: irregular() }) }
}

#[test]
fn three_pyramids_of_a_point_make_a_tetrahedron() {
    let name = C::Point.pyramid().pyramid().pyramid();
    assert!(name.same(&C::Simplex { regular: irregular(), rank: 4 }));
    assert_eq!(name.rank(), Some(3));
    assert!(name.is_valid());
}

#[test]
fn three_pyramids_of_an_abstract_point_make_a_tetrahedron() {
    let name = A::Point.pyramid().pyramid().pyramid();
    assert!(name.same(&A::Simplex { regular: AbsData, rank: 4 }));
    assert_eq!(name.rank(), Some(3));
}

#[test]
fn pyramid_low_ranks() {
    assert!(C::Nullitope.pyramid().same(&C::Point));
    assert!(C::Point.pyramid().same(&C::Dyad));
    assert!(C::Dyad.pyramid().same(&C::Triangle { regular: irregular() }));
}

#[test]
fn pyramid_of_a_regular_triangle_is_wrapped() {
    let name = C::Triangle { regular: regular_at(vec![0, 0]) }.pyramid();
    let expected = C::Pyramid(Box::new(C::Triangle { regular: regular_at(vec![0, 0]) }));
    assert!(name.same(&expected));
}

#[test]
fn pyramid_of_a_pyramid_is_a_multipyramid() {
    let base = petrial_of_cube();
    let name = C::Pyramid(Box::new(base)).pyramid();
    let expected = C::Multipyramid(vec![C::Dyad, petrial_of_cube()]);
    assert!(name.same(&expected));
    assert!(name.is_valid());
    assert_eq!(name.rank(), Some(5));
}

#[test]
fn pyramid_of_a_multipyramid_is_wrapped() {
    let a = petrial_of_cube();
    let b = C::Antiprism { base: Box::new(C::Triangle { regular: irregular() }) };
    let name = C::Multipyramid(vec![a.duplicate(), b.duplicate()]).pyramid();
    let expected = C::Pyramid(Box::new(C::Multipyramid(vec![a, b])));
    assert!(name.same(&expected));
}

#[test]
fn prism_low_ranks() {
    assert!(C::Nullitope.prism().same(&C::Nullitope));
    assert!(C::Point.prism().same(&C::Dyad));
    assert!(C::Dyad.prism().same(&C::rectangle()));
    assert!(C::rectangle().same(&C::Quadrilateral { quad: ConData(Quadrilateral::Rectangle) }));
    assert!(A::Dyad.prism().same(&A::square()));
    assert!(C::rectangle().prism().same(&C::Cuboid { regular: irregular() }));
    assert!(C::Cuboid { regular: irregular() }.prism().same(
        &C::Hyperblock { regular: irregular(), rank: 5 }
    ));
    assert!(C::Hyperblock { regular: irregular(), rank: 5 }.prism().same(
        &C::Hyperblock { regular: irregular(), rank: 6 }
    ));
}

#[test]
fn prism_of_an_orthodiagonal_is_wrapped() {
    let name = C::orthodiagonal().prism();
    assert!(name.same(&C::Prism(Box::new(C::orthodiagonal()))));
}

#[test]
fn tegum_low_ranks() {
    assert!(C::Nullitope.tegum().same(&C::Nullitope));
    assert!(C::Point.tegum().same(&C::Dyad));
    assert!(C::Dyad.tegum().same(&C::orthodiagonal()));
    assert!(C::orthodiagonal().same(
        &C::Quadrilateral { quad: ConData(Quadrilateral::Orthodiagonal) }
    ));
    assert!(A::Dyad.tegum().same(&A::square()));
    assert!(C::orthodiagonal().tegum().same(&C::Orthoplex { regular: irregular(), rank: 4 }));
    assert!(C::rectangle().tegum().same(&C::Tegum(Box::new(C::rectangle()))));
}

#[test]
fn multipyramid_of_three_points_is_a_triangle() {
    let name = C::multipyramid(vec![C::Point, C::Point, C::Point]);
    assert!(name.same(&C::Triangle { regular: irregular() }));
}

#[test]
fn multipyramid_of_nothing_is_the_nullitope() {
    assert!(C::multipyramid(Vec::new()).same(&C::Nullitope));
    assert!(C::multiprism(Vec::new()).same(&C::Point));
    assert!(C::multitegum(Vec::new()).same(&C::Point));
    assert!(C::multicomb(Vec::new()).same(&C::Nullitope));
}

#[test]
fn multipyramid_of_one_point_is_the_point() {
    assert!(C::multipyramid(vec![C::Point]).same(&C::Point));
}

#[test]
fn multipyramid_sorts_by_rank_then_facets() {
    let big = C::Generic { facet_count: 9, rank: 6 };
    let small = C::Generic { facet_count: 7, rank: 5 };
    let wide = C::Generic { facet_count: 8, rank: 5 };
    let name = C::multipyramid(vec![big.duplicate(), wide.duplicate(), small.duplicate()]);
    assert!(name.same(&C::Multipyramid(vec![small, wide, big])));
    assert!(name.is_valid());
}

#[test]
fn multipyramid_does_not_depend_on_the_order_or_the_grouping() {
    let a = C::Generic { facet_count: 9, rank: 6 };
    let b = C::Generic { facet_count: 7, rank: 5 };
    let c = C::Generic { facet_count: 8, rank: 5 };
    let flat = C::multipyramid(vec![a.duplicate(), b.duplicate(), c.duplicate()]);
    let reversed = C::multipyramid(vec![c.duplicate(), b.duplicate(), a.duplicate()]);
    let inner = C::multipyramid(vec![a, b]);
    let nested = C::multipyramid(vec![inner, c]);
    assert!(flat.same(&reversed));
    assert!(flat.same(&nested));
}

#[test]
fn multipyramid_run_again_on_its_bases_gives_itself() {
    let a = C::Generic { facet_count: 9, rank: 6 };
    let b = C::Generic { facet_count: 7, rank: 5 };
    let name = C::multipyramid(vec![a, C::Dyad, b, C::Point]);
    let again = match name.duplicate() {
        C::Multipyramid(bases) => C::multipyramid(bases),
        other => other,
    };
    assert!(matches!(name, C::Multipyramid(_)));
    assert!(name.same(&again));
}

#[test]
fn multipyramid_keeps_the_order_of_names_it_cannot_tell_apart() {
    let a = C::Small(Box::new(C::Generic { facet_count: 7, rank: 5 }));
    let b = C::Great(Box::new(C::Generic { facet_count: 7, rank: 5 }));
    let name = C::multipyramid(vec![b.duplicate(), a.duplicate()]);
    assert!(name.same(&C::Multipyramid(vec![b, a])));
}

#[test]
fn multiprism_with_a_nullitope_is_the_nullitope() {
    let name = C::multiprism(vec![C::Dyad, C::Nullitope, petrial_of_cube()]);
    assert!(name.same(&C::Nullitope));
    assert!(C::multitegum(vec![C::Nullitope, C::Dyad]).same(&C::Nullitope));
    assert!(C::multicomb(vec![petrial_of_cube(), C::Nullitope]).same(&C::Nullitope));
}

#[test]
fn multiprism_absorbs_blocks() {
    let name = C::multiprism(vec![C::Dyad, C::rectangle(), C::Cuboid { regular: irregular() }]);
    assert!(name.same(&C::Hyperblock { regular: irregular(), rank: 7 }));
    assert_eq!(name.rank(), Some(6));
    let square = C::multiprism(vec![C::Dyad, C::Dyad]);
    assert!(square.same(&C::rectangle()));
    let cube = C::multiprism(vec![C::Dyad, C::Dyad, C::Dyad]);
    assert!(cube.same(&C::Cuboid { regular: irregular() }));
}

#[test]
fn multiprism_applies_a_single_dyad_as_a_prism() {
    let name = C::multiprism(vec![C::Dyad, petrial_of_cube()]);
    assert!(name.same(&C::Prism(Box::new(petrial_of_cube()))));
}

#[test]
fn multitegum_absorbs_orthoplices() {
    let name = C::multitegum(vec![
        C::Dyad,
        C::square(),
        C::Orthoplex { regular: irregular(), rank: 4 },
    ]);
    assert!(name.same(&C::Orthoplex { regular: irregular(), rank: 7 }));
    let kept = C::multitegum(vec![C::orthodiagonal(), petrial_of_cube()]);
    assert!(kept.same(&C::Multitegum(vec![C::orthodiagonal(), petrial_of_cube()])));
}

#[test]
fn multicomb_only_flattens() {
    let a = C::Generic { facet_count: 9, rank: 6 };
    let b = C::Generic { facet_count: 7, rank: 5 };
    let inner = C::Multicomb(vec![b.duplicate(), a.duplicate()]);
    let name = C::multicomb(vec![C::Dyad, inner]);
    assert!(name.same(&C::Multicomb(vec![C::Dyad, b, a])));
}

#[test]
fn antiprism_cases() {
    assert!(C::Nullitope.antiprism().same(&C::Point));
    assert!(C::Point.antiprism().same(&C::Dyad));
    assert!(C::Dyad.antiprism().same(&C::orthodiagonal()));
    assert!(C::Simplex { regular: irregular(), rank: 4 }.antiprism().same(
        &C::Orthoplex { regular: irregular(), rank: 5 }
    ));
    assert!(petrial_of_cube().antiprism().same(
        &C::Antiprism { base: Box::new(petrial_of_cube()) }
    ));
}

#[test]
fn ditope_and_hosotope_cases() {
    assert!(C::Nullitope.ditope(3).same(&C::Nullitope));
    assert!(C::Point.ditope(3).same(&C::Dyad));
    assert!(C::Dyad.ditope(3).same(&C::Polygon { regular: irregular(), n: 2 }));
    assert!(petrial_of_cube().ditope(5).same(
        &C::Ditope { base: Box::new(petrial_of_cube()), rank: 5 }
    ));
    assert!(C::Nullitope.hosotope(3).same(&C::Nullitope));
    assert!(C::Point.hosotope(3).same(&C::Dyad));
    assert!(C::Dyad.hosotope(3).same(&C::Polygon { regular: irregular(), n: 2 }));
    assert!(petrial_of_cube().hosotope(5).same(
        &C::Hosotope { base: Box::new(petrial_of_cube()), rank: 5 }
    ));
}

#[test]
fn petrial_is_an_involution() {
    let cube = C::Cuboid { regular: irregular() };
    let once = cube.duplicate().petrial();
    assert!(once.same(&petrial_of_cube()));
    assert!(once.petrial().same(&cube));
}

#[test]
fn dual_of_a_dual_around_the_same_center_is_the_name() {
    let name = petrial_of_cube();
    let once = name.duplicate().dual(center(vec![1, 2, 3]));
    assert!(once.same(&C::Dual {
        base: Box::new(petrial_of_cube()),
        center: center(vec![1, 2, 3]),
    }));
    let twice = once.dual(center(vec![1, 2, 3]));
    assert!(twice.same(&name));
}

#[test]
fn dual_of_a_dual_around_another_center_is_generic() {
    let base = C::Prism(Box::new(C::Generic { facet_count: 7, rank: 5 }));
    let once = base.duplicate().dual(center(vec![0, 0, 0, 0, 0]));
    let twice = once.dual(center(vec![1, 0, 0, 0, 0]));
    assert!(twice.same(&C::Generic { facet_count: 16, rank: 6 }));
}

#[test]
fn dual_of_a_dual_of_unknown_facets_around_another_center_is_wrapped() {
    let once = petrial_of_cube().dual(center(vec![0, 0, 0]));
    let twice = once.duplicate().dual(center(vec![1, 0, 0]));
    assert!(twice.same(&C::Dual { base: Box::new(once), center: center(vec![1, 0, 0]) }));
}

#[test]
fn dual_keeps_regularity_near_the_center_only() {
    let cube = C::Cuboid { regular: regular_at(vec![0, 0, 0]) };
    let near = cube.duplicate().dual(center(vec![300, 400, 0]));
    assert!(near.same(&C::Orthoplex { regular: regular_at(vec![0, 0, 0]), rank: 4 }));
    let far = cube.dual(center(vec![600, 800, 0]));
    assert!(far.same(&C::Orthoplex { regular: irregular(), rank: 4 }));
}

#[test]
fn dual_tolerance_follows_the_precision() {
    type S = Name<Con<Single>>;
    let cube = S::Cuboid { regular: regular_at(vec![0, 0, 0]) };
    let dual = cube.dual(center(vec![600, 800, 0]));
    assert!(dual.same(&S::Orthoplex { regular: regular_at(vec![0, 0, 0]), rank: 4 }));
}

#[test]
fn dual_of_blocks_and_orthoplices() {
    let block = C::Hyperblock { regular: irregular(), rank: 5 };
    let dual = block.duplicate().dual(center(vec![0]));
    assert!(dual.same(&C::Orthoplex { regular: irregular(), rank: 5 }));
    assert!(dual.dual(center(vec![0])).same(&block));
    let octahedron = C::Orthoplex { regular: irregular(), rank: 4 };
    assert!(octahedron.dual(center(vec![0])).same(&C::Cuboid { regular: irregular() }));
}

#[test]
fn dual_of_quadrilaterals() {
    assert!(C::square().dual(center(vec![0, 0])).same(&C::orthodiagonal()));
    assert!(C::rectangle().dual(center(vec![0, 0])).same(&C::orthodiagonal()));
    assert!(C::orthodiagonal().dual(center(vec![0, 0])).same(
        &C::Polygon { regular: irregular(), n: 4 }
    ));
    assert!(A::square().dual(AbsData).same(&A::square()));
}

#[test]
fn dual_goes_through_modifiers_in_the_abstract_regime_only() {
    let base = A::Petrial { base: Box::new(A::Point) };
    let prism = A::Prism(Box::new(base.duplicate()));
    let dual = prism.dual(AbsData);
    let expected = A::Tegum(Box::new(A::Dual { base: Box::new(base), center: AbsData }));
    assert!(dual.same(&expected));

    let concrete = C::Prism(Box::new(petrial_of_cube()));
    let wrapped = concrete.duplicate().dual(center(vec![0]));
    assert!(wrapped.same(&C::Dual { base: Box::new(concrete), center: center(vec![0]) }));
}

#[test]
fn dual_goes_through_products_in_the_abstract_regime_only() {
    let a = A::Petrial { base: Box::new(A::Point) };
    let b = A::Antiprism { base: Box::new(A::Point) };
    let product = A::Multiprism(vec![a.duplicate(), b.duplicate()]);
    let dual = product.dual(AbsData);
    let expected = A::Multitegum(vec![
        A::Dual { base: Box::new(a), center: AbsData },
        A::Antitegum { base: Box::new(A::Point), center: AbsData },
    ]);
    assert!(dual.same(&expected));
}

#[test]
fn dual_of_antiprisms_and_antitegums() {
    let anti = C::Antiprism { base: Box::new(petrial_of_cube()) };
    let tegum = anti.duplicate().dual(center(vec![5]));
    assert!(tegum.same(&C::Antitegum {
        base: Box::new(petrial_of_cube()),
        center: center(vec![5]),
    }));
    assert!(tegum.duplicate().dual(center(vec![5])).same(&anti));
    let other = tegum.duplicate().dual(center(vec![6]));
    assert!(other.same(&C::Dual { base: Box::new(tegum), center: center(vec![6]) }));
}

#[test]
fn self_dual_names() {
    assert!(C::Nullitope.dual(center(vec![])).same(&C::Nullitope));
    assert!(C::Point.dual(center(vec![])).same(&C::Point));
    assert!(C::Dyad.dual(center(vec![0])).same(&C::Dyad));
}

#[test]
fn wrappers_hold_or_pretend() {
    let held: ConData<Quadrilateral> = NameData::new(Quadrilateral::Rectangle);
    assert!(held.contains(&Quadrilateral::Rectangle));
    assert!(!held.contains(&Quadrilateral::Square));
    assert!(!held.is_or(&Quadrilateral::Square, true));
    assert_eq!(held.unwrap_or(Quadrilateral::Square), Quadrilateral::Rectangle);
    let held: ConData<Quadrilateral> = NameData::new(Quadrilateral::Rectangle);
    assert_eq!(held.unwrap(), Quadrilateral::Rectangle);

    let phantom: AbsData = NameData::<Quadrilateral>::new(Quadrilateral::Rectangle);
    assert!(NameData::<Quadrilateral>::contains(&phantom, &Quadrilateral::Square));
    assert!(NameData::<Quadrilateral>::is_or(&phantom, &Quadrilateral::Square, true));
    assert!(!NameData::<Quadrilateral>::is_or(&phantom, &Quadrilateral::Square, false));
    assert!(!NameData::<Quadrilateral>::eq_or(&phantom, &AbsData, false));
    assert_eq!(
        NameData::<Quadrilateral>::unwrap_or(phantom, Quadrilateral::Orthodiagonal),
        Quadrilateral::Orthodiagonal
    );
}

#[test]
fn points_within_a_tolerance() {
    let a = Point::new(vec![0, 0]);
    let b = Point::new(vec![3, 4]);
    assert!(a.within(&b, 6));
    assert!(!a.within(&b, 5));
    assert!(!a.within(&b, 0));
    assert!(!a.within(&Point::new(vec![0, 0, 0]), 100));
    let far = Point::new(vec![i64::MAX, i64::MIN]);
    let other = Point::new(vec![i64::MIN, i64::MAX]);
    assert!(!far.within(&other, u64::MAX));
    assert!(far.within(&far, 1));
}
