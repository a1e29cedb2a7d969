use creature_sim::element::ElementKind;
use creature_sim::element_map::ElementMap;

#[test]
fn add_creates_the_entry() {
    let mut m = ElementMap::new();
    assert_eq!(m.get(ElementKind::WATER), None);
    m.add(ElementKind::WATER, 3);
    assert_eq!(m.get(ElementKind::WATER), Some(3));
    m.add(ElementKind::WATER, 4);
    assert_eq!(m.amount_of(ElementKind::WATER), 7);
}

#[test]
fn remove_stops_at_zero_and_keeps_the_entry() {
    let mut m = ElementMap::new();
    m.add(ElementKind::SALT, 2);
    m.remove_saturating(ElementKind::SALT, 5);
    assert_eq!(m.get(ElementKind::SALT), Some(0));
    m.remove_saturating(ElementKind::ACID, 1);
    assert_eq!(m.get(ElementKind::ACID), Some(0));
}

#[test]
fn add_then_remove_restores_the_amount() {
    let mut m = ElementMap::new();
    m.insert(ElementKind::BASE, 11);
    m.add(ElementKind::BASE, 9);
    m.remove_saturating(ElementKind::BASE, 9);
    assert_eq!(m.amount_of(ElementKind::BASE), 11);
    let mut n = ElementMap::new();
    n.add(ElementKind::OXIDE, 4);
    n.remove_saturating(ElementKind::OXIDE, 4);
    assert_eq!(n.get(ElementKind::OXIDE), Some(0));
}

#[test]
fn halving_splits_each_amount() {
    let mut m = ElementMap::new();
    m.insert(ElementKind::SUGAR, 21);
    m.insert(ElementKind::NITRATE, 4);
    m.insert(ElementKind::WATER, 0);
    let h = m.halved();
    assert_eq!(h.get(ElementKind::SUGAR), Some(10));
    assert_eq!(h.get(ElementKind::NITRATE), Some(2));
    assert_eq!(h.get(ElementKind::WATER), Some(0));
    assert_eq!(h.get(ElementKind::SALT), None);
    for k in ElementKind::all() {
        let v = m.amount_of(k);
        let half = h.amount_of(k);
        assert!(2 * half <= v && v <= 2 * half + 1);
    }
    m.halve();
    assert_eq!(m.amount_of(ElementKind::SUGAR), 10);
}

#[test]
fn kinds_come_in_declaration_order() {
    let mut m = ElementMap::new();
    m.insert(ElementKind::PHOSPHATE, 1);
    m.insert(ElementKind::SALT, 1);
    m.insert(ElementKind::CARBONATE, 0);
    assert_eq!(m.kinds(), vec![ElementKind::SALT, ElementKind::CARBONATE, ElementKind::PHOSPHATE]);
}

#[test]
fn random_maps_hold_the_requested_total() {
    for count in 0..6u16 {
        let m = ElementMap::random_with_total(count);
        let total: u32 = ElementKind::all().into_iter().map(|k| m.amount_of(k) as u32).sum();
        assert_eq!(total, count as u32);
        for k in m.kinds() {
            assert!(m.amount_of(k) >= 1);
        }
    }
}

#[test]
fn clones_hold_the_same_amounts() {
    let mut m = ElementMap::new();
    m.insert(ElementKind::FLUORIDE, 8);
    let c = m.clone();
    assert_eq!(c.get(ElementKind::FLUORIDE), Some(8));
    assert_eq!(c.kinds(), m.kinds());
}
