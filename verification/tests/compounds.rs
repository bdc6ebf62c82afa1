use miratope_lang::data::{ConData, Regular};
use miratope_lang::name::Name;
use miratope_lang::regime::{Con, Double};

type C = Name<Con<Double>>;

fn generic(facet_count: usize, rank: usize) -> C {
    C::Generic { facet_count, rank }
}

#[test]
fn compound_merges_equal_names() {
    let name = C::compound(vec![(2, C::Dyad), (3, C::Point), (4, C::Dyad)]);
    assert!(name == C::Compound(vec![(3, C::Point), (6, C::Dyad)]));
    assert!(name.is_valid());
}

#[test]
fn compound_merges_equal_names_that_do_not_stand_together() {
    let a = C::Small(Box::new(generic(7, 5)));
    let b = C::Great(Box::new(generic(7, 5)));
    let name = C::compound(vec![(1, a.clone()), (1, b.clone()), (1, a.clone())]);
    assert!(name == C::Compound(vec![(2, a), (1, b)]));
    assert!(name.is_valid());
}

#[test]
fn compound_of_one_name_is_the_name() {
    assert!(C::compound(vec![(5, generic(7, 5))]) == generic(7, 5));
    assert!(C::compound(vec![(2, C::Dyad), (3, C::Dyad)]) == C::Dyad);
}

#[test]
fn compound_sorts_by_rank_then_facets() {
    let name = C::compound(vec![(1, generic(9, 6)), (2, generic(8, 5)), (3, generic(7, 5))]);
    let expected = C::Compound(vec![(3, generic(7, 5)), (2, generic(8, 5)), (1, generic(9, 6))]);
    assert!(name == expected);
}

#[test]
fn compound_flattens_compounds() {
    let inner = C::Compound(vec![(2, generic(7, 5)), (1, generic(9, 6))]);
    let name = C::compound(vec![(4, inner), (3, generic(7, 5))]);
    assert!(name == C::Compound(vec![(5, generic(7, 5)), (1, generic(9, 6))]));
    assert!(name.is_valid());
}

#[test]
fn compound_of_nothing_is_empty() {
    let name = C::compound(Vec::new());
    assert!(name == C::Compound(Vec::new()));
    assert!(!name.is_valid());
}

#[test]
fn sort_components_is_stable() {
    let a = C::Small(Box::new(generic(7, 5)));
    let b = C::Great(Box::new(generic(7, 5)));
    let sorted = C::sort_components(vec![(1, generic(9, 6)), (2, b.clone()), (3, a.clone())]);
    assert!(sorted == vec![(2, b), (3, a), (1, generic(9, 6))]);
}

#[test]
fn compound_keeps_the_payloads_apart() {
    let regular = C::Cuboid { regular: ConData(Regular::from(
        miratope_lang::data::Point::new(vec![0, 0, 0]),
    )) };
    let irregular = C::Cuboid { regular: ConData(Regular::default()) };
    let name = C::compound(vec![(1, regular.clone()), (1, irregular.clone())]);
    assert!(name == C::Compound(vec![(1, regular), (1, irregular)]));
}
