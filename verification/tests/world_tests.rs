use creature_sim::config::{CREATURE_COUNT, ELEMENT_COUNT, GRID_HEIGHT, GRID_WIDTH};
use creature_sim::creature::{Creature, CreatureResult};
use creature_sim::element::{Element, ElementKind};
use creature_sim::element_map::ElementMap;
use creature_sim::gene::Gene;
use creature_sim::world::{StepOutcome, World, WorldError};

fn plain_gene() -> Gene {
    Gene::new(ElementMap::new(), ElementMap::new(), ElementMap::new(), 0, 0, 0, 0, ElementKind::WATER, false, false)
}

fn creature_at(x: u16) -> Creature {
    Creature::new(x, 0, vec![plain_gene()], ElementMap::new())
}

fn xs(world: &World) -> Vec<u16> {
    world.get_creatures().iter().map(|c| c.get_x()).collect()
}

#[test]
fn new_world_is_empty() {
    let w = World::new();
    assert!(w.get_creatures().is_empty());
    assert!(w.get_elements().is_empty());
    assert_eq!(w.get_tick(), 0);
}

#[test]
fn reset_populates_the_grid() {
    let mut w = World::new();
    w.reset(&plain_gene);
    assert_eq!(w.get_creatures().len(), CREATURE_COUNT as usize);
    assert_eq!(w.get_elements().len(), ELEMENT_COUNT as usize);
    assert_eq!(w.get_tick(), 0);
    for c in w.get_creatures() {
        assert!(c.get_x() < GRID_WIDTH && c.get_y() < GRID_HEIGHT);
        assert!(c.is_ready());
        let sugar = c.get_elements().amount_of(ElementKind::SUGAR);
        assert!((20..23).contains(&sugar));
    }
    for e in w.get_elements() {
        assert!(*e.get_x() < GRID_WIDTH && *e.get_y() < GRID_HEIGHT);
    }
}

#[test]
fn record_keeps_only_the_death_of_a_dying_creature() {
    let mut o = StepOutcome::new();
    let dying = CreatureResult {
        alive: false,
        offsprings: vec![creature_at(1)],
        consumed_element_indices: vec![4],
        ejected_elements: vec![Element::new(1, 1, ElementKind::SALT)],
    };
    o.record(3, dying);
    assert_eq!(o.dead, vec![3]);
    assert!(o.offsprings.is_empty() && o.consumed_element_indices.is_empty() && o.ejected_elements.is_empty());
    let living = CreatureResult {
        alive: true,
        offsprings: vec![creature_at(2)],
        consumed_element_indices: vec![5, 6],
        ejected_elements: vec![Element::new(2, 2, ElementKind::ACID)],
    };
    o.record(4, living);
    assert_eq!(o.dead, vec![3]);
    assert_eq!(o.offsprings.len(), 1);
    assert_eq!(o.consumed_element_indices, vec![5, 6]);
    assert_eq!(o.ejected_elements.len(), 1);
}

fn populated() -> World {
    let mut w = World::new();
    w.reset(&plain_gene);
    let _ = w.take_creatures();
    w
}

#[test]
fn update_removes_by_moving_the_last_and_appends_copies() {
    let mut w = populated();
    let elements_before: Vec<(u16, u16)> = w.get_elements().iter().map(|e| (*e.get_x(), *e.get_y())).collect();
    let creatures: Vec<Creature> = (0..5).map(|i| creature_at(i * 10)).collect();
    let mut a = StepOutcome::new();
    a.dead = vec![3, 1, 3];
    a.consumed_element_indices = vec![0, 0];
    let mut b = StepOutcome::new();
    b.dead = vec![1];
    b.offsprings = vec![creature_at(99)];
    b.ejected_elements = vec![Element::new(7, 7, ElementKind::BASE)];
    w.update_with(creatures, vec![a, b]).unwrap();
    assert_eq!(xs(&w), vec![0, 40, 20, 99]);
    assert_eq!(w.get_creatures()[3].get_elements().amount_of(ElementKind::SUGAR), 40);
    let elements_after: Vec<(u16, u16)> = w.get_elements().iter().map(|e| (*e.get_x(), *e.get_y())).collect();
    assert_eq!(elements_after.len(), elements_before.len());
    assert_eq!(elements_after[0], elements_before[elements_before.len() - 1]);
    assert_eq!(elements_after[1..elements_after.len() - 1], elements_before[1..elements_before.len() - 1]);
    assert_eq!(elements_after[elements_after.len() - 1], (7, 7));
    assert_eq!(w.get_tick(), 1);
}

#[test]
fn removing_the_last_index_just_drops_it() {
    let mut w = World::new();
    let creatures: Vec<Creature> = (0..3).map(|i| creature_at(i)).collect();
    let mut a = StepOutcome::new();
    a.dead = vec![2, 0];
    w.update_with(creatures, vec![a]).unwrap();
    assert_eq!(xs(&w), vec![1]);
}

#[test]
fn out_of_range_dead_index_still_pops_the_last() {
    let mut w = World::new();
    let creatures: Vec<Creature> = (0..3).map(|i| creature_at(i)).collect();
    let mut a = StepOutcome::new();
    a.dead = vec![7];
    w.update_with(creatures, vec![a]).unwrap();
    assert_eq!(xs(&w), vec![0, 1]);
}

#[test]
fn too_many_dead_is_an_error() {
    let mut w = World::new();
    let creatures: Vec<Creature> = (0..2).map(|i| creature_at(i)).collect();
    let mut a = StepOutcome::new();
    a.dead = vec![0, 1, 2, 1];
    assert_eq!(w.update_with(creatures, vec![a]), Err(WorldError::LastCreatureExtraction));
}

#[test]
fn too_many_consumed_is_an_error() {
    let mut w = World::new();
    let mut a = StepOutcome::new();
    a.consumed_element_indices = vec![0];
    assert_eq!(w.update_with(vec![creature_at(0)], vec![a]), Err(WorldError::LastElementExtraction));
}

#[test]
fn copying_an_overfull_offspring_is_an_error() {
    let mut w = World::new();
    let mut child = creature_at(5);
    child.add_elements(ElementKind::SUGAR, 65516 - 20);
    let mut a = StepOutcome::new();
    a.offsprings = vec![child];
    assert_eq!(w.update_with(vec![], vec![a]), Err(WorldError::AmountOverflow));
    let mut w = World::new();
    let mut child = creature_at(5);
    child.add_elements(ElementKind::SUGAR, 65515 - 20);
    let mut a = StepOutcome::new();
    a.offsprings = vec![child];
    assert_eq!(w.update_with(vec![], vec![a]), Ok(()));
    assert_eq!(w.get_creatures()[0].get_elements().amount_of(ElementKind::SUGAR), 65535);
}

#[test]
fn take_creatures_empties_the_world() {
    let mut w = World::new();
    w.reset(&plain_gene);
    let taken = w.take_creatures();
    assert_eq!(taken.len(), CREATURE_COUNT as usize);
    assert!(w.get_creatures().is_empty());
    assert_eq!(w.get_elements().len(), ELEMENT_COUNT as usize);
}
