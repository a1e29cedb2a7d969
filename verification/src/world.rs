//! The grid: its creatures, its elements, and the steps of the simulation.

use vstd::prelude::*;

use crate::config::{CREATURE_COUNT, ELEMENT_COUNT, FUNDAMENTAL_ELEMENT, FUNDAMENTAL_ELEMENT_INITIAL_AMOUNT, GRID_HEIGHT, GRID_WIDTH};
use crate::creature::{all_in_grid, drawn_with, random_creature, with_initial_fundamental, genome_color, genome_hash_of, same_genes, Creature, CreatureResult};
use crate::element::{random_element, Element};
use crate::element_map::amount;
use crate::gene::Gene;
use crate::utils::in_grid;

verus! {

broadcast use vstd::seq_lib::group_to_multiset_ensures, vstd::multiset::group_multiset_axioms;

/// Each index is smaller than the next.
pub open spec fn strictly_increasing(s: Seq<usize>) -> bool {
    forall|i: int, j: int| 0 <= i < j < s.len() ==> s[i] < s[j]
}

/// `s` after removing, for each index of `idx` from the last to the first, the item at
/// that index by moving the last item into its place (just dropping the last item
/// where the index is past the new end). Stops when `s` runs out.
pub open spec fn remove_desc<T>(s: Seq<T>, idx: Seq<usize>) -> Seq<T>
    decreases idx.len(),
{
    if idx.len() == 0 || s.len() == 0 {
        s
    } else {
        let i = idx.last();
        let rest = s.drop_last();
        let moved = if (i as int) < rest.len() {
            rest.update(i as int, s.last())
        } else {
            rest
        };
        remove_desc(moved, idx.drop_last())
    }
}

/// The items of `s` at the indices of `idx`.
pub open spec fn picked<T>(s: Seq<T>, idx: Seq<usize>) -> Seq<T> {
    idx.map_values(|i: usize| s[i as int])
}

/// Replacing an item of a sequence swaps one item of its multiset for another.
proof fn lemma_update_multiset<T>(s: Seq<T>, i: int, v: T)
    requires
        0 <= i < s.len(),
    ensures
        s.update(i, v).to_multiset().insert(s[i]) =~= s.to_multiset().insert(v),
{
    let t = s.update(i, v);
    assert(t.remove(i) =~= s.remove(i));
    assert(t[i] == v);
    assert(t.to_multiset() =~= s.remove(i).to_multiset().insert(v));
    assert(s.to_multiset() =~= s.remove(i).to_multiset().insert(s[i]));
}

/// Removing in-range indices in decreasing order takes out exactly the items at those
/// indices: what is left, together with the items removed, is what there was.
pub proof fn lemma_remove_desc_multiset<T>(s: Seq<T>, idx: Seq<usize>)
    requires
        strictly_increasing(idx),
        forall|t: int| 0 <= t < idx.len() ==> (#[trigger] idx[t]) < s.len(),
    ensures
        remove_desc(s, idx).len() == s.len() - idx.len(),
        remove_desc(s, idx).to_multiset().add(picked(s, idx).to_multiset()) =~= s.to_multiset(),
    decreases idx.len(),
{
    if idx.len() == 0 {
        assert(picked(s, idx) =~= Seq::<T>::empty());
    } else {
        let i = idx.last();
        let n = idx.len();
        assert(idx[n - 1] < s.len());
        let rest = s.drop_last();
        let moved = if (i as int) < rest.len() {
            rest.update(i as int, s.last())
        } else {
            rest
        };
        let idx2 = idx.drop_last();
        assert forall|t: int| 0 <= t < idx2.len() implies (#[trigger] idx2[t]) < moved.len() by {
            assert(idx[t] < idx[n - 1]);
        }
        lemma_remove_desc_multiset(moved, idx2);
        assert(picked(moved, idx2) =~= picked(s, idx2)) by {
            assert forall|t: int| 0 <= t < idx2.len() implies picked(moved, idx2)[t] == picked(s, idx2)[t] by {
                assert(idx[t] < idx[n - 1]);
            }
        }
        assert(picked(s, idx) =~= picked(s, idx2).push(s[i as int]));
        assert(s =~= rest.push(s.last()));
        if (i as int) < rest.len() {
            lemma_update_multiset(rest, i as int, s.last());
            assert(moved.to_multiset().insert(s[i as int]) =~= s.to_multiset());
        } else {
            assert(s.last() == s[i as int]);
            assert(moved.to_multiset().insert(s[i as int]) =~= s.to_multiset());
        }
    }
}

/// What the steps of the creatures handed to one worker gave: the worker-local indices
/// of the creatures that died, and what the others produced.
pub struct StepOutcome {
    pub dead: Vec<usize>,
    pub offsprings: Vec<Creature>,
    pub consumed_element_indices: Vec<usize>,
    pub ejected_elements: Vec<Element>,
}

impl StepOutcome {
    /// An outcome with nothing recorded.
    pub fn new() -> (r: Self)
        ensures
            r.dead@.len() == 0,
            r.offsprings@.len() == 0,
            r.consumed_element_indices@.len() == 0,
            r.ejected_elements@.len() == 0,
    {
        StepOutcome {
            dead: Vec::new(),
            offsprings: Vec::new(),
            consumed_element_indices: Vec::new(),
            ejected_elements: Vec::new(),
        }
    }

    /// Records the step of the creature at worker-local index `index`: a creature that
    /// died is recorded as dead and nothing else of its step is kept; otherwise its
    /// offspring, consumed indices and ejected elements are appended.
    pub fn record(&mut self, index: usize, result: CreatureResult)
        ensures
            !result.alive ==> {
                &&& final(self).dead@ == old(self).dead@.push(index)
                &&& final(self).offsprings@ == old(self).offsprings@
                &&& final(self).consumed_element_indices@ == old(self).consumed_element_indices@
                &&& final(self).ejected_elements@ == old(self).ejected_elements@
            },
            result.alive ==> {
                &&& final(self).dead@ == old(self).dead@
                &&& final(self).offsprings@ == old(self).offsprings@ + result.offsprings@
                &&& final(self).consumed_element_indices@ == old(self).consumed_element_indices@ + result.consumed_element_indices@
                &&& final(self).ejected_elements@ == old(self).ejected_elements@ + result.ejected_elements@
            },
    {
        if !result.alive {
            self.dead.push(index);
        } else {
            let mut offsprings = result.offsprings;
            let mut consumed = result.consumed_element_indices;
            let mut ejected = result.ejected_elements;
            self.offsprings.append(&mut offsprings);
            self.consumed_element_indices.append(&mut consumed);
            self.ejected_elements.append(&mut ejected);
        }
    }
}

/// Every item of `remove_desc(s, idx)` is an item of `s`.
pub proof fn lemma_remove_desc_items<T>(s: Seq<T>, idx: Seq<usize>)
    ensures
        forall|t: int| 0 <= t < remove_desc(s, idx).len() ==> s.contains(#[trigger] remove_desc(s, idx)[t]),
        remove_desc(s, idx).len() <= s.len(),
    decreases idx.len(),
{
    if idx.len() > 0 && s.len() > 0 {
        let i = idx.last();
        let rest = s.drop_last();
        let moved = if (i as int) < rest.len() {
            rest.update(i as int, s.last())
        } else {
            rest
        };
        lemma_remove_desc_items(moved, idx.drop_last());
        assert forall|t: int| 0 <= t < remove_desc(s, idx).len() implies s.contains(#[trigger] remove_desc(s, idx)[t]) by {
            let v = remove_desc(s, idx)[t];
            assert(moved.contains(v));
            let j = choose|j: int| 0 <= j < moved.len() && moved[j] == v;
            if (i as int) < rest.len() && j == i as int {
                assert(s[s.len() - 1] == v);
            } else {
                assert(s[j] == v);
            }
        }
    }
}

/// The dead indices recorded by all workers, worker after worker.
pub open spec fn all_dead(outcomes: Seq<StepOutcome>) -> Seq<usize>
    decreases outcomes.len(),
{
    if outcomes.len() == 0 {
        Seq::empty()
    } else {
        all_dead(outcomes.drop_last()) + outcomes.last().dead@
    }
}

/// The offspring recorded by all workers, worker after worker.
pub open spec fn all_offsprings(outcomes: Seq<StepOutcome>) -> Seq<Creature>
    decreases outcomes.len(),
{
    if outcomes.len() == 0 {
        Seq::empty()
    } else {
        all_offsprings(outcomes.drop_last()) + outcomes.last().offsprings@
    }
}

/// The consumed element indices recorded by all workers, worker after worker.
pub open spec fn all_consumed(outcomes: Seq<StepOutcome>) -> Seq<usize>
    decreases outcomes.len(),
{
    if outcomes.len() == 0 {
        Seq::empty()
    } else {
        all_consumed(outcomes.drop_last()) + outcomes.last().consumed_element_indices@
    }
}

/// The ejected elements recorded by all workers, worker after worker.
pub open spec fn all_ejected(outcomes: Seq<StepOutcome>) -> Seq<Element>
    decreases outcomes.len(),
{
    if outcomes.len() == 0 {
        Seq::empty()
    } else {
        all_ejected(outcomes.drop_last()) + outcomes.last().ejected_elements@
    }
}

/// The items of `s`, sorted, each once.
pub open spec fn is_sorted_set_of(r: Seq<usize>, s: Seq<usize>) -> bool {
    &&& strictly_increasing(r)
    &&& forall|x: usize| r.contains(x) <==> s.contains(x)
}

/// `c` is the copy that `Creature::clone` makes of `o`.
pub open spec fn copied_from(c: Creature, o: Creature) -> bool {
    &&& c.spec_x() == o.spec_x()
    &&& c.spec_y() == o.spec_y()
    &&& same_genes(c.spec_genes(), o.spec_genes())
    &&& c.spec_elements() == with_initial_fundamental(o.spec_elements())
    &&& c.spec_genome_hash() == genome_hash_of(c.spec_genes())
    &&& c.spec_color() == genome_color(c.spec_genome_hash())
}

/// A creature can be copied without its fundamental amount overflowing.
pub open spec fn copy_fits(c: Creature) -> bool {
    amount(c.spec_elements(), FUNDAMENTAL_ELEMENT) + FUNDAMENTAL_ELEMENT_INITIAL_AMOUNT <= u16::MAX
}

/// Every creature lies inside the grid.
pub open spec fn creatures_in_grid(cs: Seq<Creature>) -> bool {
    forall|i: int| 0 <= i < cs.len() ==> in_grid(#[trigger] cs[i].spec_x(), cs[i].spec_y())
}

/// Why a step of the world could not be completed.
#[derive(Debug, Clone, Copy, PartialEq, Eq, Structural)]
pub enum WorldError {
    /// Copying an offspring would overflow its fundamental amount.
    AmountOverflow,
    /// There were more distinct dead indices than creatures.
    LastCreatureExtraction,
    /// There were more distinct consumed indices than elements.
    LastElementExtraction,
}

/// Calls `<[usize]>::sort_unstable`, which the standard library documents as sorting
/// the slice in increasing order, equal items in any order: the result is sorted and
/// holds the same items.
#[verifier::external_body]
fn sort_unstable(v: &mut Vec<usize>)
    ensures
        final(v)@.to_multiset() == old(v)@.to_multiset(),
        forall|i: int, j: int| 0 <= i <= j < final(v)@.len() ==> final(v)@[i] <= final(v)@[j],
{
    v.sort_unstable()
}

/// `Vec::dedup` on a sorted vector: removes consecutive repeated items, which leaves
/// each item once.
fn dedup_sorted(v: &mut Vec<usize>)
    requires
        forall|i: int, j: int| 0 <= i <= j < old(v)@.len() ==> old(v)@[i] <= old(v)@[j],
    ensures
        is_sorted_set_of(final(v)@, old(v)@),
{
    let mut r: Vec<usize> = Vec::new();
    let mut i: usize = 0;
    while i < v.len()
        invariant
            i <= v@.len(),
            forall|a: int, b: int| 0 <= a <= b < v@.len() ==> v@[a] <= v@[b],
            strictly_increasing(r@),
            forall|x: usize| r@.contains(x) <==> exists|t: int| 0 <= t < i && #[trigger] v@[t] == x,
            i > 0 ==> r@.len() > 0 && r@.last() == v@[i - 1],
            i == 0 ==> r@.len() == 0,
        decreases v@.len() - i,
    {
        let x = v[i];
        let ghost r0 = r@;
        if r.len() == 0 || r[r.len() - 1] != x {
            r.push(x);
        }
        assert forall|y: usize| r@.contains(y) <==> exists|t: int| 0 <= t < i + 1 && #[trigger] v@[t] == y by {
            if exists|t: int| 0 <= t < i + 1 && #[trigger] v@[t] == y {
                let t = choose|t: int| 0 <= t < i + 1 && #[trigger] v@[t] == y;
                if t < i {
                    assert(r0.contains(y));
                    let u = choose|u: int| 0 <= u < r0.len() && r0[u] == y;
                    assert(r@[u] == y);
                } else {
                    assert(r@[r@.len() - 1] == y);
                }
            }
            if r@.contains(y) {
                let t = choose|t: int| 0 <= t < r@.len() && r@[t] == y;
                if t < r0.len() {
                    assert(r0[t] == y);
                    assert(r0.contains(y));
                } else {
                    assert(v@[i as int] == y);
                }
            }
        }
        i = i + 1;
    }
    assert forall|x: usize| r@.contains(x) <==> v@.contains(x) by {
        if v@.contains(x) {
            let t = choose|t: int| 0 <= t < v@.len() && v@[t] == x;
            assert(v@[t] == x);
        }
    }
    *v = r;
}

/// Removes the items at the indices of `idx`, from the last index to the first, each by
/// moving the last item into its place; fails where the vector runs out first, which
/// happens exactly when there are more indices than items.
fn remove_desc_exec<T>(v: &mut Vec<T>, idx: &Vec<usize>) -> (r: bool)
    ensures
        r == (idx@.len() <= old(v)@.len()),
        r ==> final(v)@ == remove_desc(old(v)@, idx@),
{
    let ghost start = v@;
    let mut k: usize = idx.len();
    assert(idx@.take(k as int) =~= idx@);
    while k > 0
        invariant
            k <= idx@.len(),
            start == old(v)@,
            v@.len() + (idx@.len() - k) == start.len(),
            remove_desc(v@, idx@.take(k as int)) == remove_desc(start, idx@),
        decreases k,
    {
        k = k - 1;
        let i = idx[k];
        match v.pop() {
            None => {
                return false;
            },
            Some(last) => {
                assert(idx@.take(k + 1).drop_last() =~= idx@.take(k as int));
                if i < v.len() {
                    v.set(i, last);
                }
            },
        }
    }
    true
}

/// The grid: the creatures on it, the elements lying on it, and the time.
pub struct World {
    creatures: Vec<Creature>,
    elements: Vec<Element>,
    tick: u128,
}

impl World {
    pub closed spec fn spec_creatures(&self) -> Seq<Creature> {
        self.creatures@
    }

    pub closed spec fn spec_elements(&self) -> Seq<Element> {
        self.elements@
    }

    pub closed spec fn spec_tick(&self) -> u128 {
        self.tick
    }

    /// An empty grid at time 0.
    pub fn new() -> (r: Self)
        ensures
            r.spec_creatures().len() == 0,
            r.spec_elements().len() == 0,
            r.spec_tick() == 0,
    {
        World { creatures: Vec::new(), elements: Vec::new(), tick: 0 }
    }

    /// Starts over at time 0 with `CREATURE_COUNT` random creatures (their genes taken
    /// from `gene_source`) and then `ELEMENT_COUNT` elements drawn at random over the grid.
    pub fn reset<G: Fn() -> Gene>(&mut self, gene_source: &G)
        requires
            call_requires(*gene_source, ()),
        ensures
            final(self).spec_creatures().len() == CREATURE_COUNT,
            forall|i: int| 0 <= i < final(self).spec_creatures().len() ==> drawn_with(#[trigger] final(self).spec_creatures()[i], *gene_source),
            final(self).spec_elements().len() == ELEMENT_COUNT,
            all_in_grid(final(self).spec_elements()),
            final(self).spec_tick() == 0,
    {
        self.creatures.clear();
        self.elements.clear();
        self.tick = 0;
        let mut n: u16 = 0;
        while n < CREATURE_COUNT
            invariant
                n <= CREATURE_COUNT,
                call_requires(*gene_source, ()),
                self.tick == 0,
                self.elements@.len() == 0,
                self.creatures@.len() == n,
                forall|i: int| 0 <= i < self.creatures@.len() ==> drawn_with(#[trigger] self.creatures@[i], *gene_source),
            decreases CREATURE_COUNT - n,
        {
            let creature = random_creature(gene_source);
            self.creatures.push(creature);
            n = n + 1;
        }
        let mut n: u16 = 0;
        while n < ELEMENT_COUNT
            invariant
                n <= ELEMENT_COUNT,
                self.creatures@.len() == CREATURE_COUNT,
                forall|i: int| 0 <= i < self.creatures@.len() ==> drawn_with(#[trigger] self.creatures@[i], *gene_source),
                self.tick == 0,
                self.elements@.len() == n,
                all_in_grid(self.elements@),
            decreases ELEMENT_COUNT - n,
        {
            let element = random_element(GRID_WIDTH, GRID_HEIGHT);
            self.elements.push(element);
            n = n + 1;
        }
    }

    pub fn get_creatures(&self) -> (r: &Vec<Creature>)
        ensures
            r@ == self.spec_creatures(),
    {
        &self.creatures
    }

    pub fn get_elements(&self) -> (r: &Vec<Element>)
        ensures
            r@ == self.spec_elements(),
    {
        &self.elements
    }

    /// The number of steps taken since the last reset.
    pub fn get_tick(&self) -> (r: u128)
        ensures
            r == self.spec_tick(),
    {
        self.tick
    }

    /// Takes the creatures out of the world, for them to take their step.
    pub fn take_creatures(&mut self) -> (r: Vec<Creature>)
        ensures
            r@ == old(self).spec_creatures(),
            final(self).spec_creatures().len() == 0,
            final(self).spec_elements() == old(self).spec_elements(),
            final(self).spec_tick() == old(self).spec_tick(),
    {
        let mut r: Vec<Creature> = Vec::new();
        std::mem::swap(&mut r, &mut self.creatures);
        r
    }

    /// Ends a step: puts back the creatures (after their step) and merges what the
    /// workers recorded, worker after worker. Every offspring is copied with
    /// `Creature::clone`; the dead indices, sorted and each taken once, are removed from
    /// the creatures from the highest down by moving the last creature into each place;
    /// the consumed indices are removed from the elements the same way; the copies of
    /// the offspring and the ejected elements are appended, and the time advances.
    pub fn update_with(&mut self, creatures: Vec<Creature>, outcomes: Vec<StepOutcome>) -> (r: Result<(), WorldError>)
        requires
            old(self).spec_tick() < u128::MAX,
        ensures
            (exists|t: int| 0 <= t < all_offsprings(outcomes@).len() && !copy_fits(#[trigger] all_offsprings(outcomes@)[t]))
                <==> r == Err::<(), WorldError>(WorldError::AmountOverflow),
            (forall|t: int| 0 <= t < all_offsprings(outcomes@).len() ==> copy_fits(#[trigger] all_offsprings(outcomes@)[t])) ==> exists|d: Seq<usize>, c: Seq<usize>| {
                &&& is_sorted_set_of(d, all_dead(outcomes@))
                &&& is_sorted_set_of(c, all_consumed(outcomes@))
                &&& (d.len() > creatures@.len() <==> r == Err::<(), WorldError>(WorldError::LastCreatureExtraction))
                &&& (d.len() <= creatures@.len() && c.len() > old(self).spec_elements().len() <==> r == Err::<(), WorldError>(WorldError::LastElementExtraction))
                &&& r is Ok ==> {
                    &&& final(self).spec_creatures().len() == remove_desc(creatures@, d).len() + all_offsprings(outcomes@).len()
                    &&& final(self).spec_creatures().take(remove_desc(creatures@, d).len() as int) == remove_desc(creatures@, d)
                    &&& forall|t: int| 0 <= t < all_offsprings(outcomes@).len() ==> copied_from(
                        #[trigger] final(self).spec_creatures()[remove_desc(creatures@, d).len() + t],
                        all_offsprings(outcomes@)[t],
                    )
                    &&& final(self).spec_elements() == remove_desc(old(self).spec_elements(), c) + all_ejected(outcomes@)
                    &&& final(self).spec_tick() == old(self).spec_tick() + 1
                }
            },
            r is Ok && all_in_grid(old(self).spec_elements()) && all_in_grid(all_ejected(outcomes@)) ==> all_in_grid(final(self).spec_elements()),
            r is Ok && creatures_in_grid(creatures@) && creatures_in_grid(all_offsprings(outcomes@)) ==> creatures_in_grid(final(self).spec_creatures()),
            indices_below(all_dead(outcomes@), creatures@.len() as int) ==> r != Err::<(), WorldError>(WorldError::LastCreatureExtraction),
            indices_below(all_consumed(outcomes@), old(self).spec_elements().len() as int) ==> r != Err::<(), WorldError>(WorldError::LastElementExtraction),
    {
        self.creatures = creatures;
        let mut creatures_to_remove: Vec<usize> = Vec::new();
        let mut offsprings: Vec<Creature> = Vec::new();
        let mut consumed_element_indices: Vec<usize> = Vec::new();
        let mut ejected_elements: Vec<Element> = Vec::new();
        let mut j: usize = 0;
        while j < outcomes.len()
            invariant
                j <= outcomes@.len(),
                self.creatures@ == creatures@,
                self.elements@ == old(self).spec_elements(),
                self.tick == old(self).spec_tick(),
                creatures_to_remove@ == all_dead(outcomes@.take(j as int)),
                consumed_element_indices@ == all_consumed(outcomes@.take(j as int)),
                ejected_elements@ == all_ejected(outcomes@.take(j as int)),
                offsprings@.len() == all_offsprings(outcomes@.take(j as int)).len(),
                forall|t: int| 0 <= t < offsprings@.len() ==> copied_from(#[trigger] offsprings@[t], all_offsprings(outcomes@.take(j as int))[t]),
                forall|t: int| 0 <= t < all_offsprings(outcomes@.take(j as int)).len() ==> copy_fits(#[trigger] all_offsprings(outcomes@.take(j as int))[t]),
            decreases outcomes@.len() - j,
        {
            let outcome = &outcomes[j];
            assert(outcomes@.take(j + 1).drop_last() =~= outcomes@.take(j as int));
            let ghost prev_off = all_offsprings(outcomes@.take(j as int));
            let mut t: usize = 0;
            let ghost d0 = creatures_to_remove@;
            while t < outcome.dead.len()
                invariant
                    t <= outcome.dead@.len(),
                    creatures_to_remove@ == d0 + outcome.dead@.take(t as int),
                decreases outcome.dead@.len() - t,
            {
                creatures_to_remove.push(outcome.dead[t]);
                assert(outcome.dead@.take(t + 1) =~= outcome.dead@.take(t as int).push(outcome.dead@[t as int]));
                t = t + 1;
            }
            assert(outcome.dead@.take(outcome.dead@.len() as int) =~= outcome.dead@);
            let mut t: usize = 0;
            let ghost o0 = offsprings@;
            while t < outcome.offsprings.len()
                invariant
                    t <= outcome.offsprings@.len(),
                    offsprings@.len() == o0.len() + t,
                    o0.len() == prev_off.len(),
                    forall|u: int| 0 <= u < o0.len() ==> offsprings@[u] == o0[u],
                    forall|u: int| 0 <= u < o0.len() ==> copied_from(#[trigger] o0[u], prev_off[u]),
                    forall|u: int| 0 <= u < prev_off.len() ==> copy_fits(#[trigger] prev_off[u]),
                    forall|u: int| 0 <= u < t ==> copied_from(#[trigger] offsprings@[o0.len() + u], outcome.offsprings@[u]),
                    forall|u: int| 0 <= u < t ==> copy_fits(#[trigger] outcome.offsprings@[u]),
                    j < outcomes@.len(),
                    *outcome == outcomes@[j as int],
                    prev_off == all_offsprings(outcomes@.take(j as int)),
                    outcomes@.take(j + 1).drop_last() == outcomes@.take(j as int),
                decreases outcome.offsprings@.len() - t,
            {
                let child = &outcome.offsprings[t];
                if child.get_elements().amount_of(FUNDAMENTAL_ELEMENT) > u16::MAX - FUNDAMENTAL_ELEMENT_INITIAL_AMOUNT {
                    proof {
                        let all = all_offsprings(outcomes@);
                        lemma_all_offsprings_prefix(outcomes@, j + 1);
                        assert(all_offsprings(outcomes@.take(j + 1)) =~= prev_off + outcome.offsprings@);
                        let cur = all_offsprings(outcomes@.take(j + 1));
                        assert(cur[prev_off.len() + t] == outcome.offsprings@[t as int]);
                        assert(cur[prev_off.len() + t] == all[prev_off.len() + t]);
                        assert(!copy_fits(all[prev_off.len() + t]));
                    }
                    return Err(WorldError::AmountOverflow);
                }
                offsprings.push(child.clone());
                t = t + 1;
            }
            proof {
                let cur = all_offsprings(outcomes@.take(j + 1));
                assert(cur =~= prev_off + outcome.offsprings@);
                assert forall|u: int| 0 <= u < offsprings@.len() implies copied_from(#[trigger] offsprings@[u], cur[u]) by {
                    if u < o0.len() {
                        assert(offsprings@[u] == o0[u]);
                    } else {
                        assert(offsprings@[o0.len() + (u - o0.len())] == offsprings@[u]);
                    }
                }
                assert forall|u: int| 0 <= u < cur.len() implies copy_fits(#[trigger] cur[u]) by {
                    if u >= prev_off.len() {
                        assert(cur[u] == outcome.offsprings@[u - prev_off.len()]);
                    }
                }
            }
            let mut t: usize = 0;
            let ghost c0 = consumed_element_indices@;
            while t < outcome.consumed_element_indices.len()
                invariant
                    t <= outcome.consumed_element_indices@.len(),
                    consumed_element_indices@ == c0 + outcome.consumed_element_indices@.take(t as int),
                decreases outcome.consumed_element_indices@.len() - t,
            {
                consumed_element_indices.push(outcome.consumed_element_indices[t]);
                assert(outcome.consumed_element_indices@.take(t + 1) =~= outcome.consumed_element_indices@.take(t as int).push(outcome.consumed_element_indices@[t as int]));
                t = t + 1;
            }
            assert(outcome.consumed_element_indices@.take(outcome.consumed_element_indices@.len() as int) =~= outcome.consumed_element_indices@);
            let mut t: usize = 0;
            let ghost e0 = ejected_elements@;
            while t < outcome.ejected_elements.len()
                invariant
                    t <= outcome.ejected_elements@.len(),
                    ejected_elements@ == e0 + outcome.ejected_elements@.take(t as int),
                decreases outcome.ejected_elements@.len() - t,
            {
                ejected_elements.push(outcome.ejected_elements[t]);
                assert(outcome.ejected_elements@.take(t + 1) =~= outcome.ejected_elements@.take(t as int).push(outcome.ejected_elements@[t as int]));
                t = t + 1;
            }
            assert(outcome.ejected_elements@.take(outcome.ejected_elements@.len() as int) =~= outcome.ejected_elements@);
            j = j + 1;
        }
        assert(outcomes@.take(outcomes@.len() as int) =~= outcomes@);
        let ghost dead_all = creatures_to_remove@;
        sort_unstable(&mut creatures_to_remove);
        proof {
            lemma_same_items(dead_all, creatures_to_remove@);
        }
        dedup_sorted(&mut creatures_to_remove);
        let ghost consumed_all = consumed_element_indices@;
        sort_unstable(&mut consumed_element_indices);
        proof {
            lemma_same_items(consumed_all, consumed_element_indices@);
        }
        dedup_sorted(&mut consumed_element_indices);
        let ghost d = creatures_to_remove@;
        let ghost c = consumed_element_indices@;
        let ghost kept = remove_desc(creatures@, d);
        proof {
            lemma_remove_desc_items(creatures@, d);
            lemma_remove_desc_items(old(self).spec_elements(), c);
        }
        assert(is_sorted_set_of(d, all_dead(outcomes@)));
        assert(is_sorted_set_of(c, all_consumed(outcomes@)));
        if !remove_desc_exec(&mut self.creatures, &creatures_to_remove) {
            assert(d.len() > creatures@.len());
            proof {
                if indices_below(all_dead(outcomes@), creatures@.len() as int) {
                    lemma_sorted_set_below(d, all_dead(outcomes@), creatures@.len() as int);
                }
            }
            return Err(WorldError::LastCreatureExtraction);
        }
        if !remove_desc_exec(&mut self.elements, &consumed_element_indices) {
            assert(c.len() > old(self).spec_elements().len());
            proof {
                if indices_below(all_consumed(outcomes@), old(self).spec_elements().len() as int) {
                    lemma_sorted_set_below(c, all_consumed(outcomes@), old(self).spec_elements().len() as int);
                }
            }
            return Err(WorldError::LastElementExtraction);
        }
        assert(self.creatures@.len() == kept.len());
        let ghost offs = offsprings@;
        self.creatures.append(&mut offsprings);
        assert(self.creatures@.take(kept.len() as int) =~= kept);
        assert forall|t: int| 0 <= t < all_offsprings(outcomes@).len() implies copied_from(
            #[trigger] self.creatures@[kept.len() + t],
            all_offsprings(outcomes@)[t],
        ) by {
            assert(self.creatures@[kept.len() + t] == offs[t]);
        }
        self.elements.append(&mut ejected_elements);
        self.tick = self.tick + 1;
        proof {
            assert forall|t: int| 0 <= t < self.elements@.len() && all_in_grid(old(self).spec_elements()) && all_in_grid(all_ejected(outcomes@)) implies in_grid(#[trigger] self.elements@[t].spec_x(), self.elements@[t].spec_y()) by {
                let k = remove_desc(old(self).spec_elements(), c);
                if t < k.len() {
                    assert(old(self).spec_elements().contains(k[t]));
                } else {
                    assert(self.elements@[t] == all_ejected(outcomes@)[t - k.len()]);
                }
            }
            assert forall|t: int| 0 <= t < self.creatures@.len() && creatures_in_grid(creatures@) && creatures_in_grid(all_offsprings(outcomes@)) implies in_grid(#[trigger] self.creatures@[t].spec_x(), self.creatures@[t].spec_y()) by {
                if t < kept.len() {
                    assert(self.creatures@[t] == kept[t]);
                    assert(creatures@.contains(kept[t]));
                } else {
                    assert(copied_from(self.creatures@[kept.len() + (t - kept.len())], all_offsprings(outcomes@)[t - kept.len()]));
                }
            }
        }
        Ok(())
    }
}

/// A prefix of the outcomes gives a prefix of the offspring.
proof fn lemma_all_offsprings_prefix(outcomes: Seq<StepOutcome>, j: int)
    requires
        0 <= j <= outcomes.len(),
    ensures
        all_offsprings(outcomes.take(j)).len() <= all_offsprings(outcomes).len(),
        forall|t: int| 0 <= t < all_offsprings(outcomes.take(j)).len() ==> #[trigger] all_offsprings(outcomes.take(j))[t] == all_offsprings(outcomes)[t],
    decreases outcomes.len() - j,
{
    if j < outcomes.len() {
        lemma_all_offsprings_prefix(outcomes, j + 1);
        assert(outcomes.take(j + 1).drop_last() =~= outcomes.take(j));
        assert(all_offsprings(outcomes.take(j + 1)) == all_offsprings(outcomes.take(j)) + outcomes.take(j + 1).last().offsprings@);
        assert forall|t: int| 0 <= t < all_offsprings(outcomes.take(j)).len() implies #[trigger] all_offsprings(outcomes.take(j))[t] == all_offsprings(outcomes)[t] by {
            assert(all_offsprings(outcomes.take(j + 1))[t] == all_offsprings(outcomes.take(j))[t]);
        }
    } else {
        assert(outcomes.take(j) =~= outcomes);
    }
}

/// Every index is below `n`.
pub open spec fn indices_below(s: Seq<usize>, n: int) -> bool {
    forall|t: int| 0 <= t < s.len() ==> #[trigger] s[t] < n
}

/// Strictly increasing indices all below `n` are at most `n` in number.
pub proof fn lemma_increasing_below(s: Seq<usize>, n: int)
    requires
        0 <= n,
        strictly_increasing(s),
        indices_below(s, n),
    ensures
        s.len() <= n,
    decreases s.len(),
{
    if s.len() > 0 {
        let p = s.drop_last();
        assert forall|t: int| 0 <= t < p.len() implies #[trigger] p[t] < s.last() by {
            assert(p[t] == s[t]);
        }
        lemma_increasing_below(p, s.last() as int);
        assert(s[s.len() - 1] < n);
    }
}

/// The sorted set of the items of `s`, all below `n`, has at most `n` items: so
/// removing dead or consumed indices that all lie in range never runs out of items.
pub proof fn lemma_sorted_set_below(r: Seq<usize>, s: Seq<usize>, n: int)
    requires
        0 <= n,
        is_sorted_set_of(r, s),
        indices_below(s, n),
    ensures
        r.len() <= n,
{
    assert forall|t: int| 0 <= t < r.len() implies #[trigger] r[t] < n by {
        assert(r.contains(r[t]));
        assert(s.contains(r[t]));
    }
    lemma_increasing_below(r, n);
}

/// Sequences with the same multiset hold the same items.
proof fn lemma_same_items(a: Seq<usize>, b: Seq<usize>)
    requires
        a.to_multiset() == b.to_multiset(),
    ensures
        forall|x: usize| a.contains(x) <==> b.contains(x),
{
    assert forall|x: usize| a.contains(x) <==> b.contains(x) by {
        assert(a.contains(x) <==> a.to_multiset().count(x) > 0);
        assert(b.contains(x) <==> b.to_multiset().count(x) > 0);
    }
}


/// Merging the records of the workers keeps every worker's records, worker after
/// worker: nothing for no worker, and one more worker appends its dead indices,
/// offspring, consumed indices and ejected elements after those of the workers before.
pub proof fn lemma_merge_appends(outcomes: Seq<StepOutcome>, o: StepOutcome)
    ensures
        all_dead(Seq::<StepOutcome>::empty()) == Seq::<usize>::empty(),
        all_offsprings(Seq::<StepOutcome>::empty()) == Seq::<Creature>::empty(),
        all_consumed(Seq::<StepOutcome>::empty()) == Seq::<usize>::empty(),
        all_ejected(Seq::<StepOutcome>::empty()) == Seq::<Element>::empty(),
        all_dead(outcomes.push(o)) == all_dead(outcomes) + o.dead@,
        all_offsprings(outcomes.push(o)) == all_offsprings(outcomes) + o.offsprings@,
        all_consumed(outcomes.push(o)) == all_consumed(outcomes) + o.consumed_element_indices@,
        all_ejected(outcomes.push(o)) == all_ejected(outcomes) + o.ejected_elements@,
        all_ejected(outcomes.push(o)).len() == all_ejected(outcomes).len() + o.ejected_elements@.len(),
{
    assert(outcomes.push(o).drop_last() =~= outcomes);
}

} // verus!
