use miratope_lang::data::{AbsData, ConData, Point, Regular};
use miratope_lang::name::Name;
use miratope_lang::regime::{Abs, Con, Double};

type A = Name<Abs>;
type C = Name<Con<Double>>;

fn irregular() -> ConData<Regular> {
    ConData(Regular::No)
}

fn regular() -> ConData<Regular> {
    ConData(Regular::Yes { center: Point::new(vec![0, 0]) })
}

fn generic(facet_count: usize, rank: usize) -> C {
    C::Generic { facet_count, rank }
}

#[test]
fn polygons_must_not_be_triangles_or_regular_quadrilaterals() {
    assert!(C::Polygon { regular: irregular(), n: 5 }.is_valid());
    assert!(C::Polygon { regular: regular(), n: 5 }.is_valid());
    assert!(C::Polygon { regular: irregular(), n: 2 }.is_valid());
    assert!(!C::Polygon { regular: irregular(), n: 3 }.is_valid());
    assert!(!C::Polygon { regular: regular(), n: 3 }.is_valid());
    assert!(C::Polygon { regular: irregular(), n: 4 }.is_valid());
    assert!(!C::Polygon { regular: regular(), n: 4 }.is_valid());
    assert!(!A::Polygon { regular: AbsData, n: 4 }.is_valid());
    assert!(A::Polygon { regular: AbsData, n: 5 }.is_valid());
}

#[test]
fn families_start_above_their_low_shapes() {
    assert!(C::Simplex { regular: irregular(), rank: 4 }.is_valid());
    assert!(!C::Simplex { regular: irregular(), rank: 3 }.is_valid());
    assert!(C::Orthoplex { regular: irregular(), rank: 4 }.is_valid());
    assert!(!C::Orthoplex { regular: irregular(), rank: 3 }.is_valid());
    assert!(C::Hyperblock { regular: irregular(), rank: 5 }.is_valid());
    assert!(!C::Hyperblock { regular: irregular(), rank: 4 }.is_valid());
    assert!(C::Cuboid { regular: regular() }.is_valid());
}

#[test]
fn generic_names_have_bounds() {
    assert!(generic(2, 4).is_valid());
    assert!(generic(100, 21).is_valid());
    assert!(!generic(1, 4).is_valid());
    assert!(!generic(2, 3).is_valid());
    assert!(!generic(2, 22).is_valid());
}

#[test]
fn products_need_two_bases_and_nothing_nested() {
    assert!(C::Multipyramid(vec![generic(2, 4), generic(3, 4)]).is_valid());
    assert!(!C::Multipyramid(vec![generic(2, 4)]).is_valid());
    assert!(!C::Multipyramid(Vec::new()).is_valid());
    let inner = C::Multipyramid(vec![generic(2, 4), generic(3, 4)]);
    assert!(!C::Multipyramid(vec![inner.clone(), generic(3, 4)]).is_valid());
    assert!(C::Multiprism(vec![inner.clone(), generic(3, 4)]).is_valid());
    assert!(!C::Multiprism(vec![C::Multiprism(vec![C::Dyad, C::Dyad]), C::Dyad]).is_valid());
    assert!(!C::Multitegum(vec![C::Multitegum(vec![C::Dyad, C::Dyad]), C::Dyad]).is_valid());
    assert!(!C::Multicomb(vec![C::Multicomb(vec![C::Dyad, C::Dyad]), C::Dyad]).is_valid());
    assert!(C::Multicomb(vec![inner, C::Dyad]).is_valid());
}

#[test]
fn validity_goes_down_the_tree() {
    let bad = generic(1, 4);
    assert!(!C::Pyramid(Box::new(bad.clone())).is_valid());
    assert!(!C::Petrial { base: Box::new(bad.clone()) }.is_valid());
    assert!(!C::Small(Box::new(bad.clone())).is_valid());
    assert!(!C::Multiprism(vec![C::Dyad, bad.clone()]).is_valid());
    assert!(!C::Compound(vec![(1, C::Dyad), (1, bad.clone())]).is_valid());
    assert!(!C::Ditope { base: Box::new(bad), rank: 3 }.is_valid());
    assert!(C::Pyramid(Box::new(generic(2, 4))).is_valid());
}

#[test]
fn compounds_hold_distinct_names_and_no_compound() {
    assert!(C::Compound(vec![(2, C::Dyad)]).is_valid());
    assert!(C::Compound(vec![(2, C::Dyad), (1, C::Point)]).is_valid());
    assert!(!C::Compound(Vec::new()).is_valid());
    assert!(!C::Compound(vec![(2, C::Dyad), (1, C::Dyad)]).is_valid());
    assert!(!C::Compound(vec![(2, C::Dyad), (1, C::Point), (4, C::Dyad)]).is_valid());
    assert!(!C::Compound(vec![(1, C::Compound(vec![(1, C::Dyad)]))]).is_valid());
}

#[test]
fn a_name_read_back_stands_only_if_valid() {
    assert!(generic(2, 4).accept() == Some(generic(2, 4)));
    assert!(generic(1, 4).accept().is_none());
}

#[test]
fn family_names_below_their_rank() {
    assert!(C::simplex(irregular(), 0) == C::Nullitope);
    assert!(C::simplex(irregular(), 1) == C::Point);
    assert!(C::simplex(irregular(), 2) == C::Dyad);
    assert!(C::simplex(regular(), 3) == C::Triangle { regular: regular() });
    assert!(C::simplex(regular(), 4) == C::Simplex { regular: regular(), rank: 4 });

    assert!(C::hyperblock(irregular(), 0) == C::Nullitope);
    assert!(C::hyperblock(irregular(), 1) == C::Point);
    assert!(C::hyperblock(irregular(), 2) == C::Dyad);
    assert!(C::hyperblock(irregular(), 3) == C::rectangle());
    assert!(C::hyperblock(regular(), 3) == C::square());
    assert!(C::hyperblock(regular(), 4) == C::Cuboid { regular: regular() });
    assert!(C::hyperblock(regular(), 5) == C::Hyperblock { regular: regular(), rank: 5 });
    assert!(C::cuboid(regular(), 4) == C::Cuboid { regular: regular() });
    assert!(A::hyperblock(AbsData, 3) == A::square());

    assert!(C::orthoplex(irregular(), 0) == C::Nullitope);
    assert!(C::orthoplex(irregular(), 1) == C::Point);
    assert!(C::orthoplex(irregular(), 2) == C::Dyad);
    assert!(C::orthoplex(irregular(), 3) == C::orthodiagonal());
    assert!(C::orthoplex(regular(), 3) == C::square());
    assert!(C::orthoplex(regular(), 4) == C::Orthoplex { regular: regular(), rank: 4 });
}

#[test]
fn polygon_names() {
    assert!(C::polygon(regular(), 3) == C::Triangle { regular: regular() });
    assert!(C::polygon(regular(), 4) == C::square());
    assert!(C::polygon(irregular(), 4) == C::Polygon { regular: irregular(), n: 4 });
    assert!(C::polygon(regular(), 5) == C::Polygon { regular: regular(), n: 5 });
    assert!(A::polygon(AbsData, 4) == A::square());
}

#[test]
fn generic_names_below_their_rank() {
    assert!(C::generic(5, 0) == C::Nullitope);
    assert!(C::generic(5, 1) == C::Point);
    assert!(C::generic(5, 2) == C::Dyad);
    assert!(C::generic(3, 3) == C::Triangle { regular: irregular() });
    assert!(C::generic(4, 3) == C::Polygon { regular: irregular(), n: 4 });
    assert!(A::generic(4, 3) == A::square());
    assert!(C::generic(5, 3) == C::Polygon { regular: irregular(), n: 5 });
    assert!(C::generic(5, 4) == generic(5, 4));
}

fn step(name: C, op: usize) -> C {
    match op {
        0 => name.pyramid(),
        1 => name.prism(),
        2 => name.tegum(),
        3 => name.antiprism(),
        4 => name.petrial(),
        5 => name.dual(ConData(Point::new(vec![0, 0, 0]))),
        6 => name.ditope(3),
        _ => C::multipyramid(vec![name, C::Dyad, C::Petrial { base: Box::new(C::Point) }]),
    }
}

fn step_abstract(name: A, op: usize) -> A {
    match op {
        0 => name.pyramid(),
        1 => name.prism(),
        2 => name.tegum(),
        3 => name.antiprism(),
        4 => name.petrial(),
        5 => name.dual(AbsData),
        6 => name.hosotope(3),
        _ => A::multiprism(vec![name, A::Dyad, A::Petrial { base: Box::new(A::Point) }]),
    }
}

#[test]
fn every_name_made_by_the_constructions_is_valid() {
    let mut names = vec![C::Nullitope, C::Point, C::Triangle { regular: regular() }];
    for _depth in 0..4 {
        let mut next = Vec::new();
        for name in &names {
            for op in 0..8 {
                let made = step(name.clone(), op);
                assert!(made.is_valid());
                next.push(made);
            }
        }
        names = next;
    }
    assert_eq!(names.len(), 3 * 8 * 8 * 8 * 8);
}

#[test]
fn every_abstract_name_made_by_the_constructions_is_valid() {
    let mut names = vec![A::Nullitope, A::Point];
    for _depth in 0..4 {
        let mut next = Vec::new();
        for name in &names {
            for op in 0..8 {
                let made = step_abstract(name.clone(), op);
                assert!(made.is_valid());
                next.push(made);
            }
        }
        names = next;
    }
    assert_eq!(names.len(), 2 * 8 * 8 * 8 * 8);
}

#[test]
fn rank_goes_up_by_one_under_pyramids_prisms_and_tegums() {
    let mut names = vec![C::Point, C::Triangle { regular: regular() }, generic(9, 6)];
    for _depth in 0..3 {
        let mut next = Vec::new();
        for name in &names {
            for op in [0, 1, 2, 4, 7] {
                next.push(step(name.clone(), op));
            }
        }
        names = next;
    }
    for name in names {
        let rank = name.rank().unwrap();
        assert_eq!(name.clone().pyramid().rank(), Some(rank + 1));
        assert_eq!(name.clone().prism().rank(), Some(rank + 1));
        assert_eq!(name.tegum().rank(), Some(rank + 1));
    }
}
