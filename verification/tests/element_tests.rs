use creature_sim::config::{GRID_HEIGHT, GRID_WIDTH};
use creature_sim::element::{random_element, random_element_kind, Element, ElementKind};
use creature_sim::utils::{get_around, neighbour, saturating_add_signed};

#[test]
fn all_kinds_in_declaration_order() {
    let all = ElementKind::all();
    assert_eq!(all.len(), 10);
    assert_eq!(all[0], ElementKind::SUGAR);
    assert_eq!(all[1], ElementKind::SALT);
    assert_eq!(all[9], ElementKind::PHOSPHATE);
    for (i, kind) in all.iter().enumerate() {
        assert_eq!(kind.index(), i);
        assert_eq!(ElementKind::from_index(i), *kind);
    }
}

#[test]
fn kind_names() {
    assert_eq!(ElementKind::SUGAR.name(), "SUGAR");
    assert_eq!(ElementKind::CARBONATE.name(), "CARBONATE");
    assert_eq!(ElementKind::PHOSPHATE.name(), "PHOSPHATE");
}

#[test]
fn element_keeps_its_fields() {
    let e = Element::new(3, 7, ElementKind::WATER);
    assert_eq!(*e.get_x(), 3);
    assert_eq!(*e.get_y(), 7);
    assert_eq!(e.get_kind(), ElementKind::WATER);
}

#[test]
fn random_elements_lie_within_bounds() {
    for _ in 0..2000 {
        let e = random_element(10, 4);
        assert!(*e.get_x() < 10);
        assert!(*e.get_y() < 4);
    }
    for _ in 0..100 {
        let e = random_element(GRID_WIDTH, GRID_HEIGHT);
        assert!(*e.get_x() < GRID_WIDTH && *e.get_y() < GRID_HEIGHT);
    }
}

#[test]
fn random_element_with_empty_bounds_sits_at_origin() {
    let e = random_element(0, 0);
    assert_eq!((*e.get_x(), *e.get_y()), (0, 0));
}

#[test]
fn random_element_kinds_cover_several_kinds() {
    let mut seen = [false; 10];
    for _ in 0..2000 {
        seen[random_element_kind().index()] = true;
    }
    assert!(seen.iter().filter(|s| **s).count() >= 5);
}

#[test]
fn neighbour_offsets() {
    assert_eq!(neighbour(5, 5, 0), (4, 4));
    assert_eq!(neighbour(5, 5, 1), (4, 5));
    assert_eq!(neighbour(5, 5, 2), (4, 6));
    assert_eq!(neighbour(5, 5, 3), (5, 4));
    assert_eq!(neighbour(5, 5, 4), (5, 6));
    assert_eq!(neighbour(5, 5, 5), (6, 4));
    assert_eq!(neighbour(5, 5, 6), (6, 5));
    assert_eq!(neighbour(5, 5, 7), (6, 6));
}

#[test]
fn neighbour_stays_on_the_grid() {
    assert_eq!(neighbour(0, 0, 0), (0, 0));
    assert_eq!(neighbour(719, 479, 7), (719, 479));
    assert_eq!(neighbour(719, 10, 6), (719, 10));
    assert_eq!(neighbour(1000, 1000, 0), (719, 479));
}

#[test]
fn saturating_add_signed_holds_to_range() {
    assert_eq!(saturating_add_signed(0, -1), 0);
    assert_eq!(saturating_add_signed(65535, 1), 65535);
    assert_eq!(saturating_add_signed(10, -3), 7);
    assert_eq!(saturating_add_signed(10, 300), 310);
}

#[test]
fn get_around_gives_a_neighbour() {
    for _ in 0..500 {
        let (x, y) = get_around(100, 200);
        assert!((99..=101).contains(&x) && (199..=201).contains(&y));
        assert!((x, y) != (100, 200));
    }
    for _ in 0..200 {
        let (x, y) = get_around(0, 0);
        assert!(x <= 1 && y <= 1);
        let (x, y) = get_around(719, 479);
        assert!(x >= 718 && y >= 478 && x < GRID_WIDTH && y < GRID_HEIGHT);
    }
}
