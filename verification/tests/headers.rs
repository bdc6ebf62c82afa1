use miratope_lang::data::{AbsData, ConData, NameData, Point, Quadrilateral, Regular};
use miratope_lang::header::{header_line, path_to_str, stored_name};

#[test]
fn the_last_component_of_a_path() {
    assert_eq!(path_to_str("library/polygons/square.off"), "square.off");
    assert_eq!(path_to_str("square.off"), "square.off");
    assert_eq!(path_to_str("/cube"), "cube");
    assert_eq!(path_to_str("folder/"), "");
    assert_eq!(path_to_str(""), "");
    assert_eq!(path_to_str("größe/würfel.off"), "würfel.off");
}

#[test]
fn a_first_line_stores_a_name_behind_the_marker() {
    assert_eq!(stored_name("#Point"), Some("Point"));
    assert_eq!(stored_name("# Dyad"), Some(" Dyad"));
    assert_eq!(stored_name("#é"), Some("é"));
    assert_eq!(stored_name("#"), None);
    assert_eq!(stored_name(""), None);
    assert_eq!(stored_name("Point"), None);
    assert_eq!(stored_name("OFF"), None);
    assert_eq!(stored_name(" #Point"), None);
}

#[test]
fn a_header_hands_back_its_text() {
    assert_eq!(header_line("Point"), "#Point");
    let line = header_line("Pyramid(Dyad)");
    assert_eq!(stored_name(&line), Some("Pyramid(Dyad)"));
    assert_eq!(stored_name(&header_line("")), None);
}

#[test]
fn functions_apply_to_what_is_held() {
    let held: ConData<Quadrilateral> = NameData::new(Quadrilateral::Rectangle);
    assert_eq!(held.apply_or(|q| *q == Quadrilateral::Rectangle, false), true);
    assert_eq!(held.apply(|q| *q == Quadrilateral::Square), false);
    assert_eq!(*held.unwrap_ref(), Quadrilateral::Rectangle);
    let other: ConData<Quadrilateral> = NameData::new(Quadrilateral::Square);
    assert!(!held.eq_or(&other, true));
    assert!(held.eq_or(&held.clone(), false));

    let phantom = AbsData;
    assert_eq!(
        NameData::<Quadrilateral>::apply_or(&phantom, |q| *q == Quadrilateral::Rectangle, false),
        false
    );
    assert_eq!(NameData::<Quadrilateral>::apply_or(&phantom, |_q| 1, 7), 7);
    assert!(NameData::<Point>::same(&phantom, &AbsData));
}

#[test]
fn regularity_is_none_by_default() {
    assert!(Regular::default() == Regular::No);
    assert!(Regular::from(Point::new(vec![1])) == Regular::Yes {
        center: Point::new(vec![1]),
    });
    assert!(Regular::from(Point::new(vec![1])) != Regular::from(
        Point::new(vec![2]),
    ));
    assert_eq!(Quadrilateral::default(), Quadrilateral::Square);
    assert!(Point::new(vec![1, 2]) == Point::new(vec![1, 2]).clone());
    assert!(Point::new(vec![1, 2]) != Point::new(vec![1]));
}
