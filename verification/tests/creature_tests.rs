use std::cell::Cell;
use std::hash::{DefaultHasher, Hash, Hasher};

use creature_sim::creature::{all_elements_in_grid, random_creature, Creature, CreatureError, MoveRequest};
use creature_sim::element::{Element, ElementKind};
use creature_sim::element_map::ElementMap;
use creature_sim::gene::Gene;

fn map(entries: &[(ElementKind, u16)]) -> ElementMap {
    let mut m = ElementMap::new();
    for (k, v) in entries {
        m.insert(*k, *v);
    }
    m
}

#[allow(clippy::too_many_arguments)]
fn gene(
    needed: &[(ElementKind, u16)],
    produced: &[(ElementKind, u16)],
    ejected: &[(ElementKind, u16)],
    frequency: i16,
    size: i16,
    target: ElementKind,
    critical: bool,
    reproduce: bool,
) -> Gene {
    Gene::new(map(needed), map(produced), map(ejected), frequency, size, 0, 0, target, critical, reproduce)
}

fn plain_gene() -> Gene {
    gene(&[], &[], &[], 0, 0, ElementKind::WATER, false, false)
}

fn no_luck() -> bool {
    false
}

fn good_luck() -> bool {
    true
}

fn stay(_: MoveRequest) -> (i32, i32) {
    (0, 0)
}

#[test]
fn kinds_flags_and_bools_hash_as_documented_bytes() {
    let mut a = DefaultHasher::new();
    ElementKind::WATER.hash(&mut a);
    let mut b = DefaultHasher::new();
    b.write(&[2, 0, 0, 0, 0, 0, 0, 0]);
    assert_eq!(a.finish(), b.finish());

    let mut a = DefaultHasher::new();
    513u16.hash(&mut a);
    (-2i16).hash(&mut a);
    true.hash(&mut a);
    let mut b = DefaultHasher::new();
    b.write(&[1, 2]);
    b.write(&[254, 255]);
    b.write(&[1]);
    assert_eq!(a.finish(), b.finish());
}

#[test]
fn gene_hash_writes_maps_then_fields() {
    let g = Gene::new(
        map(&[(ElementKind::SALT, 2)]),
        map(&[]),
        map(&[(ElementKind::OXIDE, 1), (ElementKind::ACID, 3)]),
        -1,
        0,
        1,
        -1,
        ElementKind::NITRATE,
        true,
        false,
    );
    let mut a = DefaultHasher::new();
    g.hash_into(&mut a);
    let mut b = DefaultHasher::new();
    b.write(&[1, 0, 0, 0, 0, 0, 0, 0]);
    b.write(&[2, 0]);
    b.write(&[3, 0, 0, 0, 0, 0, 0, 0]);
    b.write(&[5, 0, 0, 0, 0, 0, 0, 0]);
    b.write(&[3, 0]);
    b.write(&[1, 0]);
    b.write(&[255, 255]);
    b.write(&[0, 0]);
    b.write(&[1, 0]);
    b.write(&[255, 255]);
    b.write(&[8, 0, 0, 0, 0, 0, 0, 0]);
    b.write(&[1]);
    b.write(&[0]);
    assert_eq!(a.finish(), b.finish());
}

#[test]
fn gene_getters_and_clone() {
    let g = Gene::new(
        map(&[(ElementKind::SALT, 2)]),
        map(&[(ElementKind::WATER, 1)]),
        map(&[]),
        1,
        -1,
        0,
        -2,
        ElementKind::BASE,
        false,
        true,
    );
    let c = g.clone();
    for x in [&g, &c] {
        assert_eq!(x.get_elements_needed().amount_of(ElementKind::SALT), 2);
        assert_eq!(x.get_elements_produced().amount_of(ElementKind::WATER), 1);
        assert_eq!(x.get_elements_ejected().kinds(), vec![]);
        assert_eq!(x.get_frequency_exponent(), 1);
        assert_eq!(x.get_size_multiplier_exponent(), -1);
        assert_eq!(x.get_speed_multiplier_exponent(), 0);
        assert_eq!(x.get_sense_multiplier_exponent(), -2);
        assert_eq!(x.get_target_element(), ElementKind::BASE);
        assert!(!x.is_critical());
        assert!(x.will_reproduce());
    }
}

#[test]
fn new_creature_gets_initial_fundamental_and_colour_from_hash() {
    let c = Creature::new(4, 5, vec![plain_gene(), plain_gene()], map(&[(ElementKind::SUGAR, 3), (ElementKind::SALT, 1)]));
    assert_eq!((c.get_x(), c.get_y()), (4, 5));
    assert_eq!(c.get_elements().amount_of(ElementKind::SUGAR), 23);
    assert_eq!(c.get_elements().amount_of(ElementKind::SALT), 1);
    let h = c.get_genome_hash();
    let col = c.get_color();
    assert_eq!((col.r, col.g, col.b, col.a), (h % 255, (h / 255) % 255, (h / 65536) % 255, 255));
    let mut hasher = DefaultHasher::new();
    plain_gene().hash_into(&mut hasher);
    plain_gene().hash_into(&mut hasher);
    assert_eq!(h, hasher.finish() as i32);
}

#[test]
fn same_genes_same_genome_hash() {
    let a = Creature::new(0, 0, vec![plain_gene(), gene(&[(ElementKind::ACID, 1)], &[], &[], 0, 0, ElementKind::ACID, true, false)], ElementMap::new());
    let b = Creature::new(9, 9, vec![plain_gene(), gene(&[(ElementKind::ACID, 1)], &[], &[], 0, 0, ElementKind::ACID, true, false)], map(&[(ElementKind::WATER, 4)]));
    let c = Creature::new(0, 0, vec![plain_gene(), gene(&[(ElementKind::ACID, 2)], &[], &[], 0, 0, ElementKind::ACID, true, false)], ElementMap::new());
    assert_eq!(a.get_genome_hash(), b.get_genome_hash());
    assert_ne!(a.get_genome_hash(), c.get_genome_hash());
}

#[test]
fn reproduce_halves_between_parent_and_child() {
    let mut p = Creature::new(7, 8, vec![plain_gene(), plain_gene()], map(&[(ElementKind::SALT, 5)]));
    let child = p.reproduce(6, 9);
    assert_eq!(p.get_elements().amount_of(ElementKind::SALT), 2);
    assert_eq!(p.get_elements().amount_of(ElementKind::SUGAR), 10);
    assert_eq!(child.get_elements().amount_of(ElementKind::SALT), 2);
    assert_eq!(child.get_elements().amount_of(ElementKind::SUGAR), 30);
    assert_eq!((child.get_x(), child.get_y()), (6, 9));
    assert_eq!(child.get_genome_hash(), p.get_genome_hash());
    assert_eq!(child.get_color(), p.get_color());
}

#[test]
fn clone_adds_the_initial_fundamental_again() {
    let c = Creature::new(1, 2, vec![plain_gene()], ElementMap::new());
    let d = c.clone();
    assert_eq!(d.get_elements().amount_of(ElementKind::SUGAR), 40);
    assert_eq!((d.get_x(), d.get_y()), (1, 2));
    assert_eq!(d.get_genome_hash(), c.get_genome_hash());
}

#[test]
fn add_and_remove_elements() {
    let mut c = Creature::new(1, 2, vec![plain_gene()], ElementMap::new());
    c.add_elements(ElementKind::NITRATE, 6);
    c.remove_elements(ElementKind::NITRATE, 2);
    assert_eq!(c.get_elements().amount_of(ElementKind::NITRATE), 4);
    c.remove_elements(ElementKind::NITRATE, 10);
    assert_eq!(c.get_elements().get(ElementKind::NITRATE), Some(0));
}

#[test]
fn starving_creature_dies() {
    let mut c = Creature::new(3, 3, vec![plain_gene()], ElementMap::new());
    c.remove_elements(ElementKind::SUGAR, 19);
    let r = c.produce(0, &vec![Element::new(3, 3, ElementKind::WATER)], &good_luck, &stay).unwrap();
    assert!(!r.alive);
    assert!(r.offsprings.is_empty() && r.consumed_element_indices.is_empty() && r.ejected_elements.is_empty());
    assert_eq!(c.get_elements().get(ElementKind::SUGAR), Some(0));
}

#[test]
fn gene_runs_creature_moves_and_eats() {
    let g = gene(&[(ElementKind::SALT, 1)], &[(ElementKind::WATER, 2)], &[], 0, 0, ElementKind::WATER, false, false);
    let mut c = Creature::new(10, 10, vec![g, plain_gene()], map(&[(ElementKind::SALT, 1)]));
    let elements = vec![Element::new(13, 10, ElementKind::WATER), Element::new(10, 10, ElementKind::SALT)];
    let seen = Cell::new(None);
    let mover = |q: MoveRequest| {
        seen.set(Some(q));
        (3, 0)
    };
    let r = c.produce(0, &elements, &no_luck, &mover).unwrap();
    assert!(r.alive);
    assert_eq!(seen.get(), Some(MoveRequest { speed_exponent: 0, dx: 3, dy: 0, min_dist_sq: 9 }));
    assert_eq!((c.get_x(), c.get_y()), (13, 10));
    assert_eq!(r.consumed_element_indices, vec![0]);
    assert_eq!(c.get_elements().amount_of(ElementKind::WATER), 3);
    assert_eq!(c.get_elements().amount_of(ElementKind::SALT), 0);
    assert_eq!(c.get_elements().amount_of(ElementKind::SUGAR), 19);
}

#[test]
fn critical_gene_short_of_an_absent_kind_kills() {
    let g = gene(&[(ElementKind::ACID, 1)], &[], &[], 0, 0, ElementKind::ACID, true, false);
    let mut c = Creature::new(10, 10, vec![g, plain_gene()], ElementMap::new());
    let r = c.produce(0, &vec![], &good_luck, &stay).unwrap();
    assert!(!r.alive);
}

#[test]
fn luck_decides_a_critical_gene_short_of_a_held_kind() {
    let make = || {
        let g = gene(&[(ElementKind::ACID, 3)], &[(ElementKind::BASE, 1)], &[], 0, 0, ElementKind::BASE, true, false);
        Creature::new(10, 10, vec![g, plain_gene()], map(&[(ElementKind::ACID, 1)]))
    };
    let mut lucky = make();
    let r = lucky.produce(0, &vec![], &good_luck, &stay).unwrap();
    assert!(r.alive);
    assert_eq!(lucky.get_elements().amount_of(ElementKind::ACID), 0);
    assert_eq!(lucky.get_elements().amount_of(ElementKind::BASE), 1);
    let mut unlucky = make();
    let r = unlucky.produce(0, &vec![], &no_luck, &stay).unwrap();
    assert!(!r.alive);
    assert_eq!(unlucky.get_elements().amount_of(ElementKind::ACID), 1);
}

#[test]
fn ejection_takes_what_is_held_and_scatters_it_around() {
    let g = gene(&[], &[], &[(ElementKind::OXIDE, 2)], 0, 0, ElementKind::OXIDE, false, false);
    let mut c = Creature::new(50, 60, vec![g, plain_gene()], map(&[(ElementKind::OXIDE, 1)]));
    let r = c.produce(0, &vec![], &no_luck, &stay).unwrap();
    assert!(r.alive);
    assert_eq!(r.ejected_elements.len(), 1);
    let e = r.ejected_elements[0];
    assert_eq!(e.get_kind(), ElementKind::OXIDE);
    assert!((49..=51).contains(e.get_x()) && (59..=61).contains(e.get_y()));
    assert!((*e.get_x(), *e.get_y()) != (50, 60));
    assert_eq!(c.get_elements().amount_of(ElementKind::OXIDE), 0);
}

#[test]
fn reproducing_gene_gives_birth_next_to_the_parent() {
    let g = gene(&[], &[], &[], 1, 0, ElementKind::WATER, false, true);
    let mut c = Creature::new(50, 60, vec![g, plain_gene()], map(&[(ElementKind::SALT, 8)]));
    let r = c.produce(0, &vec![], &no_luck, &stay).unwrap();
    assert!(r.alive);
    assert_eq!(r.offsprings.len(), 2);
    for o in &r.offsprings {
        assert!((49..=51).contains(&o.get_x()) && (59..=61).contains(&o.get_y()));
        assert_eq!(o.get_genome_hash(), c.get_genome_hash());
    }
    assert_eq!(c.get_elements().amount_of(ElementKind::SALT), 2);
    assert_eq!(r.offsprings[0].get_elements().amount_of(ElementKind::SALT), 4);
    assert_eq!(r.offsprings[1].get_elements().amount_of(ElementKind::SALT), 2);
    assert_eq!(c.get_elements().amount_of(ElementKind::SUGAR), 4);
    assert_eq!(r.offsprings[0].get_elements().amount_of(ElementKind::SUGAR), 29);
    assert_eq!(r.offsprings[1].get_elements().amount_of(ElementKind::SUGAR), 24);
}

#[test]
fn small_creature_dies() {
    let g = gene(&[], &[], &[], 1, -2, ElementKind::WATER, false, false);
    let mut c = Creature::new(10, 10, vec![g.clone(), g], ElementMap::new());
    let r = c.produce(0, &vec![], &no_luck, &stay).unwrap();
    assert!(!r.alive);
    let g = gene(&[], &[], &[], 0, -2, ElementKind::WATER, false, false);
    let mut c = Creature::new(10, 10, vec![g], ElementMap::new());
    let r = c.produce(0, &vec![], &no_luck, &stay).unwrap();
    assert!(r.alive);
}

#[test]
fn negative_frequency_genes_never_run() {
    let g = gene(&[], &[(ElementKind::WATER, 5)], &[], -1, 0, ElementKind::WATER, false, false);
    let mut c = Creature::new(10, 10, vec![g], ElementMap::new());
    for tick in 0..4 {
        let r = c.produce(tick, &vec![], &no_luck, &stay).unwrap();
        assert!(r.alive);
    }
    assert_eq!(c.get_elements().amount_of(ElementKind::WATER), 0);
}

#[test]
fn overflowing_production_is_an_error() {
    let g = gene(&[], &[(ElementKind::WATER, 2)], &[], 0, 0, ElementKind::WATER, false, false);
    let mut c = Creature::new(10, 10, vec![g], map(&[(ElementKind::WATER, 65534)]));
    let r = c.produce(0, &vec![], &no_luck, &stay);
    assert!(matches!(r, Err(CreatureError::AmountOverflow)));
}

#[test]
fn overflowing_consumption_is_an_error() {
    let mut c = Creature::new(10, 10, vec![plain_gene()], map(&[(ElementKind::WATER, 65535)]));
    let r = c.produce(0, &vec![Element::new(10, 10, ElementKind::WATER)], &no_luck, &stay);
    assert!(matches!(r, Err(CreatureError::AmountOverflow)));
}

#[test]
fn scan_keeps_nearest_distance_but_last_offset() {
    let c = Creature::new(10, 10, vec![plain_gene()], ElementMap::new());
    let elements = vec![
        Element::new(13, 10, ElementKind::WATER),
        Element::new(30, 30, ElementKind::WATER),
        Element::new(10, 10, ElementKind::WATER),
        Element::new(11, 10, ElementKind::SALT),
    ];
    let seen = Cell::new(None);
    let mover = |q: MoveRequest| {
        seen.set(Some(q));
        (1, 1)
    };
    assert_eq!(c.compute_move(ElementKind::WATER, 2, 0, &elements, &mover), (1, 1));
    assert_eq!(seen.get(), Some(MoveRequest { speed_exponent: 2, dx: 0, dy: 0, min_dist_sq: 9 }));
}

#[test]
fn scan_respects_the_sensing_radius() {
    let c = Creature::new(0, 0, vec![plain_gene()], ElementMap::new());
    let called = Cell::new(false);
    let mover = |_: MoveRequest| {
        called.set(true);
        (5, 5)
    };
    // radius 200 * 2^-4 = 12.5: squared 156.25
    let near = vec![Element::new(12, 3, ElementKind::ACID)];
    assert_eq!(c.compute_move(ElementKind::ACID, 0, -4, &near, &mover), (5, 5));
    assert!(called.get());
    called.set(false);
    let far = vec![Element::new(12, 4, ElementKind::ACID)];
    assert_eq!(c.compute_move(ElementKind::ACID, 0, -4, &far, &mover), (0, 0));
    assert!(!called.get());
    let very_far = vec![Element::new(719, 479, ElementKind::ACID)];
    assert_eq!(c.compute_move(ElementKind::ACID, 0, 9, &very_far, &mover), (5, 5));
}

#[test]
fn moves_are_cut_to_sixteen_bits_and_kept_on_grid() {
    let g = gene(&[], &[], &[], 0, 0, ElementKind::WATER, false, false);
    let mut c = Creature::new(700, 5, vec![g], ElementMap::new());
    let elements = vec![Element::new(710, 5, ElementKind::WATER)];
    let r = c.produce(0, &elements, &no_luck, &|_: MoveRequest| (100, -20)).unwrap();
    assert!(r.alive);
    assert_eq!((c.get_x(), c.get_y()), (719, 0));
    let mut d = Creature::new(100, 100, vec![plain_gene()], ElementMap::new());
    let r = d.produce(0, &vec![Element::new(101, 100, ElementKind::WATER)], &no_luck, &|_: MoveRequest| (65536 + 3, 0)).unwrap();
    assert!(r.alive);
    assert_eq!(d.get_x(), 103);
}

#[test]
fn readiness_checks() {
    assert!(Creature::new(10, 10, vec![plain_gene()], ElementMap::new()).is_ready());
    let twice = gene(&[], &[], &[], 1, 0, ElementKind::WATER, false, false);
    assert!(Creature::new(10, 10, vec![twice], ElementMap::new()).is_ready());
    assert!(Creature::new(720, 10, vec![plain_gene()], ElementMap::new()).is_ready());
    assert!(all_elements_in_grid(&vec![Element::new(719, 479, ElementKind::SALT)]));
    assert!(!all_elements_in_grid(&vec![Element::new(0, 480, ElementKind::SALT)]));
}

#[test]
fn random_creatures_follow_the_configuration() {
    for _ in 0..50 {
        let c = random_creature(&plain_gene);
        assert!(c.get_x() < 720 && c.get_y() < 480);
        let sugar = c.get_elements().amount_of(ElementKind::SUGAR);
        assert!((20..23).contains(&sugar));
        assert!(c.is_ready());
    }
}

#[test]
fn second_repetition_of_a_lone_gene_is_a_missing_gene() {
    let twice = gene(&[], &[], &[], 1, 0, ElementKind::WATER, false, false);
    let mut c = Creature::new(10, 10, vec![twice], ElementMap::new());
    assert_eq!(c.produce(0, &vec![], &no_luck, &stay).err(), Some(CreatureError::MissingGene));
    let starved = gene(&[(ElementKind::WATER, 1)], &[], &[], 1, 0, ElementKind::WATER, false, false);
    let mut c = Creature::new(10, 10, vec![starved], ElementMap::new());
    let r = c.produce(0, &vec![], &no_luck, &stay).unwrap();
    assert!(r.alive);
}

#[test]
fn steps_among_elements_outside_the_grid() {
    let far = vec![
        Element::new(1000, 0, ElementKind::SALT),
        Element::new(5, 5, ElementKind::SALT),
        Element::new(60000, 60000, ElementKind::WATER),
    ];
    let mut c = Creature::new(5, 5, vec![plain_gene()], ElementMap::new());
    let r = c.produce(0, &far, &no_luck, &stay).unwrap();
    assert!(r.alive);
    assert_eq!(r.consumed_element_indices, vec![1]);
    assert_eq!(c.get_elements().amount_of(ElementKind::SALT), 1);
    assert_eq!((c.get_x(), c.get_y()), (5, 5));
}

#[test]
fn a_creature_outside_the_grid_is_brought_back_when_it_heads_for_a_target() {
    let mut c = Creature::new(800, 500, vec![plain_gene()], ElementMap::new());
    let r = c.produce(0, &vec![], &no_luck, &stay).unwrap();
    assert!(r.alive);
    assert_eq!((c.get_x(), c.get_y()), (719, 479));
}
