use miratope_lang::data::{AbsData, ConData, Point, Regular};
use miratope_lang::name::Name;
use miratope_lang::regime::{Abs, Con, Double};

type A = Name<Abs>;
type C = Name<Con<Double>>;

fn irregular() -> ConData<Regular> {
    ConData(Regular::No)
}

fn base() -> C {
    C::Petrial { base: Box::new(C::Cuboid { regular: irregular() }) }
}

fn abstract_base() -> A {
    A::Petrial { base: Box::new(A::Cuboid { regular: AbsData }) }
}

#[test]
fn prisms_of_prisms_are_folded_into_one_multiprism() {
    let once = base().prism();
    assert!(once == C::Prism(Box::new(base())));
    let twice = once.prism();
    assert!(twice == C::Multiprism(vec![C::rectangle(), base()]));
    let thrice = twice.prism();
    assert!(thrice == C::Multiprism(vec![base(), C::Cuboid { regular: irregular() }]));
    let again = thrice.prism();
    let expected = C::Multiprism(vec![base(), C::Hyperblock { regular: irregular(), rank: 5 }]);
    assert!(again == expected);
    assert_eq!(again.rank(), Some(7));
    assert!(again.is_valid());
}

#[test]
fn pyramids_of_pyramids_are_folded_into_one_multipyramid() {
    let twice = base().pyramid().pyramid();
    assert!(twice == C::Multipyramid(vec![C::Dyad, base()]));
    let thrice = twice.pyramid();
    assert!(thrice == C::Multipyramid(vec![C::Triangle { regular: irregular() }, base()]));
    let again = thrice.pyramid();
    let expected = C::Multipyramid(vec![base(), C::Simplex { regular: irregular(), rank: 4 }]);
    assert!(again == expected);
    assert_eq!(again.rank(), Some(7));
}

#[test]
fn tegums_of_tegums_are_folded_into_one_multitegum() {
    let twice = base().tegum().tegum();
    assert!(twice == C::Multitegum(vec![C::orthodiagonal(), base()]));
    let thrice = twice.clone().tegum();
    assert!(thrice == C::Tegum(Box::new(twice)));
    assert_eq!(thrice.rank(), Some(6));
}

#[test]
fn abstract_tegums_of_tegums_take_the_square_back() {
    let twice = abstract_base().tegum().tegum();
    assert!(twice == A::Multitegum(vec![A::square(), abstract_base()]));
    let thrice = twice.tegum();
    let expected = A::Multitegum(vec![
        abstract_base(),
        A::Orthoplex { regular: AbsData, rank: 4 },
    ]);
    assert!(thrice == expected);
}

#[test]
fn a_product_of_products_is_flattened() {
    let a = C::Generic { facet_count: 9, rank: 6 };
    let b = C::Generic { facet_count: 7, rank: 5 };
    let c = C::Generic { facet_count: 8, rank: 7 };
    let d = C::Generic { facet_count: 5, rank: 4 };
    let left = C::multiprism(vec![a.clone(), b.clone()]);
    let right = C::multiprism(vec![c.clone(), d.clone()]);
    let both = C::multiprism(vec![left, right]);
    assert!(both == C::Multiprism(vec![d, b, a, c]));
}

#[test]
fn a_product_of_another_kind_is_kept_whole() {
    let a = C::Generic { facet_count: 9, rank: 6 };
    let b = C::Generic { facet_count: 7, rank: 5 };
    let inner = C::multitegum(vec![a, b]);
    let name = C::multiprism(vec![inner.clone(), C::Dyad, C::Dyad]);
    assert!(name == C::Multiprism(vec![C::rectangle(), inner]));
}

#[test]
fn the_dual_of_an_abstract_product_is_the_product_of_the_duals() {
    let a = A::Simplex { regular: AbsData, rank: 4 };
    let b = A::Hyperblock { regular: AbsData, rank: 5 };
    let name = A::Multiprism(vec![a.clone(), b]);
    let dual = name.clone().dual(AbsData);
    let expected = A::Multitegum(vec![a, A::Orthoplex { regular: AbsData, rank: 5 }]);
    assert!(dual == expected);
    assert!(dual.dual(AbsData) == name);
}

fn step(name: C, op: u64) -> C {
    match op % 9 {
        0 => name.pyramid(),
        1 => name.prism(),
        2 => name.tegum(),
        3 => name.antiprism(),
        4 => name.petrial(),
        5 => name.dual(ConData(Point::new(vec![0, 0, 0]))),
        6 => name.hosotope(4),
        7 => C::multitegum(vec![C::Dyad, name, C::square()]),
        _ => C::compound(vec![(2, name), (1, C::Triangle { regular: irregular() })]),
    }
}

#[test]
fn names_made_by_long_runs_of_constructions_are_valid() {
    let mut seed: u64 = 0x2545_F491_4F6C_DD1D;
    for _run in 0..3000 {
        let mut name = C::Point;
        for _depth in 0..6 {
            seed = seed.wrapping_mul(6364136223846793005).wrapping_add(1442695040888963407);
            name = step(name, seed >> 33);
            assert!(name.is_valid());
        }
    }
}

#[test]
fn a_product_with_an_atom_can_be_grouped_first() {
    let x = C::Generic { facet_count: 9, rank: 6 };
    let y = C::Generic { facet_count: 7, rank: 5 };
    let inner = C::multipyramid(vec![C::Dyad, x.clone()]);
    assert!(inner == C::Multipyramid(vec![C::Dyad, x.clone()]));
    let nested = C::multipyramid(vec![inner, y.clone()]);
    let flat = C::multipyramid(vec![C::Dyad, x.clone(), y.clone()]);
    assert!(nested == flat);
    assert!(flat == C::Multipyramid(vec![C::Dyad, y, x]));
}

#[test]
fn a_multipyramid_of_atoms_is_a_simplex() {
    let triangle = C::Triangle { regular: irregular() };
    let name = C::multipyramid(vec![C::Point, triangle.clone(), C::Dyad, C::Nullitope]);
    assert!(name == C::Simplex { regular: irregular(), rank: 6 });
    let inner = C::multipyramid(vec![C::Point, triangle.clone()]);
    assert!(inner == C::Simplex { regular: irregular(), rank: 4 });
    assert!(C::multipyramid(vec![inner, C::Dyad]) == name);
    assert!(C::multipyramid(vec![C::Dyad, triangle, C::Point]) == name);
}
