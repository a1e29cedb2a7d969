//! A model of a creature's step: which gene runs come in which order, and what the
//! amounts, the recorded repetition indices and the counts of births and ejected
//! elements are after each run, given whether each run went through.

use vstd::prelude::*;

use crate::config::{FUNDAMENTAL_ELEMENT, FUNDAMENTAL_ELEMENT_CONSUMPTION_AMOUNT, GRID_HEIGHT, GRID_WIDTH};
use crate::creature::{
    after_consuming, after_gene, consumption_fits, dist_sq, lemma_scan_finds_nearest, within_sense, ejected_kinds, may_run, moved, pow2, production_fits, sat_sub, scan,
    luck_agrees, shortfall, size_is_below_one, with_initial_fundamental, Creature, CreatureResult, MoveRequest,
};
use crate::element::{Element, ElementKind};
use crate::element_map::{amount, halved};
use crate::gene::Gene;

verus! {

/// The runs of the first `n` genes, in order: `(g, i)` for the `i`-th repetition of gene
/// `g`; a gene of frequency exponent `f >= 0` runs `2^f` times, one of negative exponent
/// not at all.
pub open spec fn runs_upto(genes: Seq<Gene>, n: int) -> Seq<(int, int)>
    decreases n,
{
    if n <= 0 {
        Seq::empty()
    } else {
        let f = genes[n - 1].spec_frequency_exponent();
        runs_upto(genes, n - 1) + (if f >= 0 {
            Seq::new(pow2(f as nat), |i: int| (n - 1, i))
        } else {
            Seq::empty()
        })
    }
}

/// All the runs of a step, in order.
pub open spec fn runs(genes: Seq<Gene>) -> Seq<(int, int)> {
    runs_upto(genes, genes.len() as int)
}

/// What a step has come to after some runs: the amounts, whether the creature lives,
/// the recorded repetition indices, those of them recorded by critical genes, the
/// amounts each creature born so far starts with, and the kinds of the elements
/// ejected so far, in order.
pub type StepState = (Map<ElementKind, u16>, bool, Seq<usize>, Seq<usize>, Seq<Map<ElementKind, u16>>, Seq<ElementKind>);

/// The amounts held by each creature of a sequence.
pub open spec fn amounts_of(cs: Seq<Creature>) -> Seq<Map<ElementKind, u16>> {
    cs.map_values(|c: Creature| c.spec_elements())
}

/// The kind of each element of a sequence.
pub open spec fn kinds_of(es: Seq<Element>) -> Seq<ElementKind> {
    es.map_values(|e: Element| e.spec_kind())
}

/// The state after the first `t` runs, where `outcomes[s]` says whether run `s` went
/// through. A run that goes through applies the gene and ejects what the gene ejects;
/// if the gene reproduces, the amounts are then halved and a creature is born with
/// the other half and the initial fundamental amount. A run of a critical gene that
/// does not go through kills the creature, after which nothing changes.
pub open spec fn replay(m: Map<ElementKind, u16>, genes: Seq<Gene>, outcomes: Seq<bool>, t: int) -> StepState
    decreases t,
{
    if t <= 0 {
        (m, true, Seq::empty(), Seq::empty(), Seq::empty(), Seq::empty())
    } else {
        let prev = replay(m, genes, outcomes, t - 1);
        let run = runs(genes)[t - 1];
        let gene = genes[run.0];
        if !prev.1 {
            prev
        } else if outcomes[t - 1] {
            let after = after_gene(prev.0, gene);
            (
                if gene.spec_reproduce() { halved(after) } else { after },
                true,
                prev.2.push(run.1 as usize),
                if gene.spec_critical() { prev.3.push(run.1 as usize) } else { prev.3 },
                if gene.spec_reproduce() { prev.4.push(with_initial_fundamental(halved(after))) } else { prev.4 },
                prev.5 + ejected_kinds(prev.0, gene),
            )
        } else if gene.spec_critical() {
            (prev.0, false, prev.2, prev.3, prev.4, prev.5)
        } else {
            prev
        }
    }
}

/// Whether the outcome of run `s` agrees with the amounts before it and with what
/// `luck` answered: a run that goes through may run and its production fits; one that
/// does not was short of a kind; a run short of nothing goes through; and `luck`
/// answered as `luck_agrees` says.
pub open spec fn outcome_consistent<L: Fn() -> bool>(
    m: Map<ElementKind, u16>,
    genes: Seq<Gene>,
    outcomes: Seq<bool>,
    s: int,
    luck: L,
) -> bool {
    let cur = replay(m, genes, outcomes, s).0;
    let gene = genes[runs(genes)[s].0];
    &&& outcomes[s] ==> may_run(cur, gene) && production_fits(cur, gene)
    &&& !outcomes[s] ==> exists|k: ElementKind| shortfall(cur, gene, k)
    &&& (forall|k: ElementKind| !shortfall(cur, gene, k)) ==> outcomes[s]
    &&& luck_agrees(luck, cur, gene, outcomes[s])
}

/// The outcomes of the first `n` runs agree with the amounts, as long as the creature
/// lives.
pub open spec fn trace_consistent<L: Fn() -> bool>(
    m: Map<ElementKind, u16>,
    genes: Seq<Gene>,
    outcomes: Seq<bool>,
    n: int,
    luck: L,
) -> bool {
    forall|s: int| 0 <= s < n && (#[trigger] replay(m, genes, outcomes, s)).1 ==> outcome_consistent(m, genes, outcomes, s, luck)
}

/// The size (0), speed (1) or sense (2) exponent of a gene.
pub open spec fn gene_exponent(gene: Gene, which: int) -> int {
    if which == 0 {
        gene.spec_size_exponent() as int
    } else if which == 1 {
        gene.spec_speed_exponent() as int
    } else {
        gene.spec_sense_exponent() as int
    }
}

/// The sum of an exponent over the genes at the given indices.
pub open spec fn exponent_sum(genes: Seq<Gene>, idx: Seq<usize>, which: int) -> int
    decreases idx.len(),
{
    if idx.len() == 0 {
        0
    } else {
        exponent_sum(genes, idx.drop_last(), which) + gene_exponent(genes[idx.last() as int], which)
    }
}

/// The runs of more genes start with the runs of fewer.
pub proof fn lemma_runs_prefix(genes: Seq<Gene>, a: int, b: int)
    requires
        0 <= a <= b <= genes.len(),
    ensures
        runs_upto(genes, a).len() <= runs_upto(genes, b).len(),
        forall|t: int| 0 <= t < runs_upto(genes, a).len() ==> #[trigger] runs_upto(genes, b)[t] == runs_upto(genes, a)[t],
    decreases b,
{
    if a < b {
        lemma_runs_prefix(genes, a, b - 1);
        assert forall|t: int| 0 <= t < runs_upto(genes, a).len() implies #[trigger] runs_upto(genes, b)[t] == runs_upto(genes, a)[t] by {
            assert(runs_upto(genes, b)[t] == runs_upto(genes, b - 1)[t]);
        }
    }
}

/// Run number `runs_upto(genes, g).len() + i` of the step is repetition `i` of gene
/// `g`.
pub proof fn lemma_runs_index(genes: Seq<Gene>, g: int, i: int)
    requires
        0 <= g < genes.len(),
        genes[g].spec_frequency_exponent() >= 0,
        0 <= i < pow2(genes[g].spec_frequency_exponent() as nat),
    ensures
        runs_upto(genes, g).len() + i < runs(genes).len(),
        runs(genes)[runs_upto(genes, g).len() + i] == (g, i),
        runs_upto(genes, g + 1).len() == runs_upto(genes, g).len() + pow2(genes[g].spec_frequency_exponent() as nat),
{
    lemma_runs_prefix(genes, g + 1, genes.len() as int);
    let t = runs_upto(genes, g).len() + i;
    assert(runs_upto(genes, g + 1)[t] == (g, i));
}

/// A gene of negative exponent adds no run.
pub proof fn lemma_runs_skip(genes: Seq<Gene>, g: int)
    requires
        0 <= g < genes.len(),
        genes[g].spec_frequency_exponent() < 0,
    ensures
        runs_upto(genes, g + 1) == runs_upto(genes, g),
{
    assert(runs_upto(genes, g + 1) =~= runs_upto(genes, g));
}

/// The state after `t` runs depends only on the first `t` outcomes.
pub proof fn lemma_replay_prefix(m: Map<ElementKind, u16>, genes: Seq<Gene>, a: Seq<bool>, b: Seq<bool>, t: int)
    requires
        0 <= t <= a.len(),
        t <= b.len(),
        a.take(t) == b.take(t),
    ensures
        replay(m, genes, a, t) == replay(m, genes, b, t),
    decreases t,
{
    if t > 0 {
        assert(a.take(t - 1) =~= a.take(t).take(t - 1));
        assert(b.take(t - 1) =~= b.take(t).take(t - 1));
        lemma_replay_prefix(m, genes, a, b, t - 1);
        assert(a[t - 1] == a.take(t)[t - 1]);
        assert(b[t - 1] == b.take(t)[t - 1]);
    }
}

/// Once the creature has died, later runs change nothing.
pub proof fn lemma_replay_dead(m: Map<ElementKind, u16>, genes: Seq<Gene>, outcomes: Seq<bool>, t: int, n: int)
    requires
        0 <= t <= n,
        !replay(m, genes, outcomes, t).1,
    ensures
        replay(m, genes, outcomes, n) == replay(m, genes, outcomes, t),
    decreases n,
{
    if t < n {
        lemma_replay_dead(m, genes, outcomes, t, n - 1);
    }
}

/// The amounts once the creature has burnt its fundamental element for the step.
pub open spec fn after_burning(m: Map<ElementKind, u16>) -> Map<ElementKind, u16> {
    m.insert(FUNDAMENTAL_ELEMENT, sat_sub(amount(m, FUNDAMENTAL_ELEMENT), FUNDAMENTAL_ELEMENT_CONSUMPTION_AMOUNT))
}

/// `(nx, ny)` is where a creature at `(x, y)` ends up when it heads for `target`: where
/// the scan finds an element of that kind in range, the cell reached by a move that
/// `mover` may answer to the request; else the cell reached by no move, which is
/// `(x, y)` brought back inside the grid.
pub open spec fn moved_towards<M: Fn(MoveRequest) -> (i32, i32)>(
    x: u16,
    y: u16,
    els: Seq<Element>,
    target: ElementKind,
    speed_exponent: int,
    sense_exponent: int,
    mover: M,
    nx: u16,
    ny: u16,
) -> bool {
    let s = scan(els, target, x, y, sense_exponent, els.len() as int);
    if !s.0 {
        nx == moved(x, 0, GRID_WIDTH) && ny == moved(y, 0, GRID_HEIGHT)
    } else {
        exists|m: (i32, i32)|
            call_ensures(
                mover,
                (MoveRequest {
                    speed_exponent: speed_exponent as i64,
                    dx: s.2 as i32,
                    dy: s.3 as i32,
                    min_dist_sq: s.1 as u64,
                },),
                m,
            ) && nx == moved(x, m.0, GRID_WIDTH) && ny == moved(y, m.1, GRID_HEIGHT)
    }
}

/// The recorded indices among which a step picks its target: those of critical genes,
/// if any, else all of them.
pub open spec fn step_targets(recorded: Seq<usize>, critical: Seq<usize>) -> Seq<usize> {
    if critical.len() > 0 {
        critical
    } else {
        recorded
    }
}

/// `(fx, fy)` is where a creature at `(x, y)` with genes `genes` goes once its runs
/// have recorded the indices `recorded` (`critical` of them by critical genes): it
/// stays where no index was recorded; else it heads for the target of the gene at one
/// of the indices among which it picks (see `step_targets`), with the speed and sense
/// exponents summed over the recorded indices.
pub open spec fn heads_for<M: Fn(MoveRequest) -> (i32, i32)>(
    x: u16,
    y: u16,
    els: Seq<Element>,
    genes: Seq<Gene>,
    recorded: Seq<usize>,
    critical: Seq<usize>,
    mover: M,
    fx: u16,
    fy: u16,
) -> bool {
    let targets = step_targets(recorded, critical);
    &&& targets.len() == 0 ==> fx == x && fy == y
    &&& targets.len() > 0 ==> exists|p: int|
        0 <= p < targets.len() && #[trigger] moved_towards(
            x,
            y,
            els,
            genes[targets[p] as int].spec_target(),
            exponent_sum(genes, recorded, 1),
            exponent_sum(genes, recorded, 2),
            mover,
            fx,
            fy,
        )
}

/// A step of `old` that went through, ending in `fin` with result `res`, is the one the
/// model gives for the run outcomes `outcomes`: the outcomes agree with the amounts
/// and with what `luck` answered (see `outcome_consistent`);
/// if the creature lived through its runs, a gene lies at every recorded index;
/// the creatures born start with the amounts of the model, and the elements ejected
/// are of the kinds of the model, in order; the creature lives
/// unless it died in a run or is smaller than 1 after the runs; a creature that died
/// stays where it was with the amounts of the model; a living one heads for the target
/// of one of the recorded genes (see `heads_for`) and then takes in the elements at its
/// new cell.
pub open spec fn step_matches<L: Fn() -> bool, M: Fn(MoveRequest) -> (i32, i32)>(
    old: Creature,
    fin: Creature,
    res: CreatureResult,
    els: Seq<Element>,
    luck: L,
    mover: M,
    outcomes: Seq<bool>,
) -> bool {
    let m1 = after_burning(old.spec_elements());
    let genes = old.spec_genes();
    let st = replay(m1, genes, outcomes, runs(genes).len() as int);
    &&& outcomes.len() == runs(genes).len()
    &&& trace_consistent(m1, genes, outcomes, runs(genes).len() as int, luck)
    &&& st.1 ==> indices_in_range(genes, st.2)
    &&& amounts_of(res.offsprings@) == st.4
    &&& kinds_of(res.ejected_elements@) == st.5
    &&& res.alive == (st.1 && !size_is_below_one(exponent_sum(genes, st.2, 0)))
    &&& !res.alive ==> {
        &&& fin.spec_elements() == st.0
        &&& fin.spec_x() == old.spec_x()
        &&& fin.spec_y() == old.spec_y()
    }
    &&& res.alive ==> {
        &&& heads_for(old.spec_x(), old.spec_y(), els, genes, st.2, st.3, mover, fin.spec_x(), fin.spec_y())
        &&& fin.spec_elements() == after_consuming(st.0, els, fin.spec_x(), fin.spec_y(), els.len() as int)
    }
}

/// A gene lies at every index of `idx`.
pub open spec fn indices_in_range(genes: Seq<Gene>, idx: Seq<usize>) -> bool {
    forall|t: int| 0 <= t < idx.len() ==> #[trigger] idx[t] < genes.len()
}

/// A step of `old` that, after the runs with outcomes `outcomes`, all of them, found
/// no gene at one of the recorded repetition indices: the outcomes agree with the
/// amounts, the creature lived through its runs, and a recorded index is past its last
/// gene.
pub open spec fn step_misses_gene<L: Fn() -> bool>(old: Creature, luck: L, outcomes: Seq<bool>) -> bool {
    let m1 = after_burning(old.spec_elements());
    let genes = old.spec_genes();
    let st = replay(m1, genes, outcomes, outcomes.len() as int);
    &&& outcomes.len() == runs(genes).len()
    &&& trace_consistent(m1, genes, outcomes, outcomes.len() as int, luck)
    &&& st.1
    &&& !indices_in_range(genes, st.2)
}

/// A step of `old` that overflowed an amount after the runs with outcomes `outcomes`:
/// the outcomes agree with the amounts and with `luck` and the creature still lives;
/// then either the next run may go through, got past its shortfalls (`luck` saying yes
/// where it was short), and its production would overflow, or all runs are done, a
/// gene lies at every recorded index, the creature is of size 1 or more, and taking in
/// the elements at the cell it heads for would overflow.
pub open spec fn step_overflows<L: Fn() -> bool, M: Fn(MoveRequest) -> (i32, i32)>(
    old: Creature,
    els: Seq<Element>,
    luck: L,
    mover: M,
    outcomes: Seq<bool>,
) -> bool {
    let m1 = after_burning(old.spec_elements());
    let genes = old.spec_genes();
    let n = outcomes.len() as int;
    let st = replay(m1, genes, outcomes, n);
    &&& n <= runs(genes).len()
    &&& trace_consistent(m1, genes, outcomes, n, luck)
    &&& st.1
    &&& if n < runs(genes).len() {
        let gene = genes[runs(genes)[n].0];
        may_run(st.0, gene) && !production_fits(st.0, gene) && luck_agrees(luck, st.0, gene, true)
    } else {
        &&& indices_in_range(genes, st.2)
        &&& !size_is_below_one(exponent_sum(genes, st.2, 0))
        &&& exists|fx: u16, fy: u16|
            #[trigger] heads_for(old.spec_x(), old.spec_y(), els, genes, st.2, st.3, mover, fx, fy)
                && !consumption_fits(st.0, els, fx, fy)
    }
}

/// Gathers the facts of `step_overflows`, each of which the caller has at hand, with
/// `(fx, fy)` the cell the creature heads for once all runs are done.
pub proof fn lemma_step_overflows_intro<L: Fn() -> bool, M: Fn(MoveRequest) -> (i32, i32)>(
    old: Creature,
    els: Seq<Element>,
    luck: L,
    mover: M,
    outcomes: Seq<bool>,
    st: StepState,
    fx: u16,
    fy: u16,
)
    requires
        st == replay(after_burning(old.spec_elements()), old.spec_genes(), outcomes, outcomes.len() as int),
        outcomes.len() <= runs(old.spec_genes()).len(),
        trace_consistent(after_burning(old.spec_elements()), old.spec_genes(), outcomes, outcomes.len() as int, luck),
        st.1,
        outcomes.len() < runs(old.spec_genes()).len() ==> {
            let gene = old.spec_genes()[runs(old.spec_genes())[outcomes.len() as int].0];
            may_run(st.0, gene) && !production_fits(st.0, gene) && luck_agrees(luck, st.0, gene, true)
        },
        outcomes.len() == runs(old.spec_genes()).len() ==> {
            &&& indices_in_range(old.spec_genes(), st.2)
            &&& !size_is_below_one(exponent_sum(old.spec_genes(), st.2, 0))
            &&& heads_for(old.spec_x(), old.spec_y(), els, old.spec_genes(), st.2, st.3, mover, fx, fy)
            &&& !consumption_fits(st.0, els, fx, fy)
        },
    ensures
        step_overflows(old, els, luck, mover, outcomes),
{
}

/// Gathers the facts of `step_misses_gene`, each of which the caller has at hand.
pub proof fn lemma_step_misses_gene_intro<L: Fn() -> bool>(old: Creature, luck: L, outcomes: Seq<bool>, st: StepState)
    requires
        st == replay(after_burning(old.spec_elements()), old.spec_genes(), outcomes, outcomes.len() as int),
        outcomes.len() == runs(old.spec_genes()).len(),
        trace_consistent(after_burning(old.spec_elements()), old.spec_genes(), outcomes, outcomes.len() as int, luck),
        st.1,
        !indices_in_range(old.spec_genes(), st.2),
    ensures
        step_misses_gene(old, luck, outcomes),
{
}

/// Outcomes that led to a death, padded with failures up to the number of runs, still
/// agree with the amounts and give the same final state.
pub proof fn lemma_pad_after_death<L: Fn() -> bool>(
    m: Map<ElementKind, u16>,
    genes: Seq<Gene>,
    trace: Seq<bool>,
    luck: L,
) -> (full: Seq<bool>)
    requires
        trace.len() <= runs(genes).len(),
        trace_consistent(m, genes, trace, trace.len() as int, luck),
        !replay(m, genes, trace, trace.len() as int).1,
    ensures
        full.len() == runs(genes).len(),
        trace_consistent(m, genes, full, runs(genes).len() as int, luck),
        replay(m, genes, full, runs(genes).len() as int) == replay(m, genes, trace, trace.len() as int),
{
    let n = trace.len() as int;
    let full = trace + Seq::new((runs(genes).len() - n) as nat, |i: int| false);
    assert(full.take(n) =~= trace.take(n));
    lemma_replay_prefix(m, genes, full, trace, n);
    lemma_replay_dead(m, genes, full, n, runs(genes).len() as int);
    assert forall|s: int| 0 <= s < runs(genes).len() && (#[trigger] replay(m, genes, full, s)).1 implies outcome_consistent(m, genes, full, s, luck) by {
        if s < n {
            assert(full.take(s) =~= trace.take(s));
            lemma_replay_prefix(m, genes, full, trace, s);
            assert(replay(m, genes, trace, s).1);
            assert(outcome_consistent(m, genes, trace, s, luck));
            assert(full[s] == trace[s]);
        } else {
            lemma_replay_dead(m, genes, full, n, s);
        }
    }
    full
}

/// Extending agreeing outcomes by one that agrees with the amounts `cur` before the
/// next run, of gene `gene`, keeps them agreeing, and keeps the earlier states.
pub proof fn lemma_trace_extend<L: Fn() -> bool>(
    m: Map<ElementKind, u16>,
    genes: Seq<Gene>,
    trace: Seq<bool>,
    b: bool,
    cur: Map<ElementKind, u16>,
    gene: Gene,
    luck: L,
)
    requires
        trace.len() < runs(genes).len(),
        trace_consistent(m, genes, trace, trace.len() as int, luck),
        cur == replay(m, genes, trace, trace.len() as int).0,
        gene == genes[runs(genes)[trace.len() as int].0],
        b ==> may_run(cur, gene) && production_fits(cur, gene),
        !b ==> exists|k: ElementKind| shortfall(cur, gene, k),
        (forall|k: ElementKind| !shortfall(cur, gene, k)) ==> b,
        luck_agrees(luck, cur, gene, b),
    ensures
        trace_consistent(m, genes, trace.push(b), trace.len() + 1int, luck),
        forall|s: int| 0 <= s <= trace.len() ==> #[trigger] replay(m, genes, trace.push(b), s) == replay(m, genes, trace, s),
{
    let t2 = trace.push(b);
    let n = trace.len() as int;
    assert forall|s: int| 0 <= s <= n implies #[trigger] replay(m, genes, t2, s) == replay(m, genes, trace, s) by {
        assert(t2.take(s) =~= trace.take(s));
        lemma_replay_prefix(m, genes, t2, trace, s);
    }
    assert(replay(m, genes, t2, n) == replay(m, genes, trace, n));
    assert(t2[n] == b);
    assert(outcome_consistent(m, genes, t2, n, luck));
    assert forall|s: int| 0 <= s < n + 1 && (#[trigger] replay(m, genes, t2, s)).1 implies outcome_consistent(m, genes, t2, s, luck) by {
        if s < n {
            assert(replay(m, genes, t2, s) == replay(m, genes, trace, s));
            assert(outcome_consistent(m, genes, trace, s, luck));
            assert(t2[s] == trace[s]);
        }
    }
}

/// Gathers the facts of `step_matches`, each of which the caller has at hand.
pub proof fn lemma_step_matches_intro<L: Fn() -> bool, M: Fn(MoveRequest) -> (i32, i32)>(
    old: Creature,
    fin: Creature,
    res: CreatureResult,
    els: Seq<Element>,
    luck: L,
    mover: M,
    outcomes: Seq<bool>,
    st: StepState,
)
    requires
        st == replay(after_burning(old.spec_elements()), old.spec_genes(), outcomes, runs(old.spec_genes()).len() as int),
        outcomes.len() == runs(old.spec_genes()).len(),
        trace_consistent(after_burning(old.spec_elements()), old.spec_genes(), outcomes, runs(old.spec_genes()).len() as int, luck),
        amounts_of(res.offsprings@) == st.4,
        kinds_of(res.ejected_elements@) == st.5,
        st.1 ==> indices_in_range(old.spec_genes(), st.2),
        res.alive == (st.1 && !size_is_below_one(exponent_sum(old.spec_genes(), st.2, 0))),
        !res.alive ==> fin.spec_elements() == st.0 && fin.spec_x() == old.spec_x() && fin.spec_y() == old.spec_y(),
        res.alive ==> heads_for(old.spec_x(), old.spec_y(), els, old.spec_genes(), st.2, st.3, mover, fin.spec_x(), fin.spec_y()),
        res.alive ==> fin.spec_elements() == after_consuming(st.0, els, fin.spec_x(), fin.spec_y(), els.len() as int),
    ensures
        step_matches(old, fin, res, els, luck, mover, outcomes),
{
}


/// The exponents of a step add up gene by gene: none for no recorded index, and a
/// recorded index adds the size, speed and sense exponents of the gene at that index to
/// the size, speed and sense sums.
pub proof fn lemma_exponent_sums(genes: Seq<Gene>, idx: Seq<usize>, i: usize)
    ensures
        exponent_sum(genes, Seq::<usize>::empty(), 0) == 0,
        exponent_sum(genes, Seq::<usize>::empty(), 1) == 0,
        exponent_sum(genes, Seq::<usize>::empty(), 2) == 0,
        exponent_sum(genes, idx.push(i), 0) == exponent_sum(genes, idx, 0) + genes[i as int].spec_size_exponent(),
        exponent_sum(genes, idx.push(i), 1) == exponent_sum(genes, idx, 1) + genes[i as int].spec_speed_exponent(),
        exponent_sum(genes, idx.push(i), 2) == exponent_sum(genes, idx, 2) + genes[i as int].spec_sense_exponent(),
{
    assert(idx.push(i).drop_last() =~= idx);
    assert(idx.push(i).last() == i);
}

/// A creature whose runs recorded the single index `i` (of a gene that is not critical)
/// heads for the target of gene `i`, moving at that gene's speed exponent and sensing
/// with its sense exponent.
pub proof fn lemma_heads_for_one_gene<M: Fn(MoveRequest) -> (i32, i32)>(
    x: u16,
    y: u16,
    els: Seq<Element>,
    genes: Seq<Gene>,
    i: usize,
    mover: M,
    fx: u16,
    fy: u16,
)
    requires
        heads_for(x, y, els, genes, seq![i], Seq::<usize>::empty(), mover, fx, fy),
    ensures
        moved_towards(
            x,
            y,
            els,
            genes[i as int].spec_target(),
            genes[i as int].spec_speed_exponent() as int,
            genes[i as int].spec_sense_exponent() as int,
            mover,
            fx,
            fy,
        ),
{
    let rec = seq![i];
    assert(rec =~= Seq::<usize>::empty().push(i));
    lemma_exponent_sums(genes, Seq::<usize>::empty(), i);
    assert(step_targets(rec, Seq::<usize>::empty()) == rec);
    let p = choose|p: int| 0 <= p < rec.len() && #[trigger] moved_towards(
        x,
        y,
        els,
        genes[rec[p] as int].spec_target(),
        exponent_sum(genes, rec, 1),
        exponent_sum(genes, rec, 2),
        mover,
        fx,
        fy,
    );
    assert(p == 0);
}


/// What a creature heading for `target` does: if no element of that kind lies within
/// the sensing radius for `sense_exponent` (at a positive distance), it makes no move
/// (and is brought back inside the grid); if one does, the mover was asked with speed
/// exponent `speed_exponent` and an offset and squared distance of an element of that
/// kind, and the creature ends where the mover's answer takes it.
pub proof fn lemma_moved_towards_roles<M: Fn(MoveRequest) -> (i32, i32)>(
    x: u16,
    y: u16,
    els: Seq<Element>,
    target: ElementKind,
    speed_exponent: int,
    sense_exponent: int,
    mover: M,
    fx: u16,
    fy: u16,
)
    requires
        moved_towards(x, y, els, target, speed_exponent, sense_exponent, mover, fx, fy),
    ensures
        (forall|i: int|
            0 <= i < els.len() && els[i].spec_kind() == target && dist_sq(els[i], x, y) > 0 ==> !within_sense(
                #[trigger] dist_sq(els[i], x, y),
                sense_exponent,
            )) ==> fx == moved(x, 0, GRID_WIDTH) && fy == moved(y, 0, GRID_HEIGHT),
        (exists|i: int|
            0 <= i < els.len() && els[i].spec_kind() == target && dist_sq(els[i], x, y) > 0 && within_sense(
                #[trigger] dist_sq(els[i], x, y),
                sense_exponent,
            )) ==> exists|q: MoveRequest, m: (i32, i32)| {
                &&& #[trigger] call_ensures(mover, (q,), m)
                &&& q.speed_exponent == speed_exponent as i64
                &&& exists|j: int| 0 <= j < els.len() && els[j].spec_kind() == target && dist_sq(els[j], x, y) == q.min_dist_sq
                    && within_sense(dist_sq(els[j], x, y), sense_exponent)
                &&& fx == moved(x, m.0, GRID_WIDTH)
                &&& fy == moved(y, m.1, GRID_HEIGHT)
            },
{
    let n = els.len() as int;
    lemma_scan_finds_nearest(els, target, x, y, sense_exponent, n);
    let s = scan(els, target, x, y, sense_exponent, n);
    if s.0 {
        let w = choose|i: int|
            0 <= i < n && els[i].spec_kind() == target && #[trigger] dist_sq(els[i], x, y) == s.1
                && dist_sq(els[i], x, y) > 0 && within_sense(dist_sq(els[i], x, y), sense_exponent);
        let q = MoveRequest {
            speed_exponent: speed_exponent as i64,
            dx: s.2 as i32,
            dy: s.3 as i32,
            min_dist_sq: s.1 as u64,
        };
        let m = choose|m: (i32, i32)| call_ensures(mover, (q,), m) && fx == moved(x, m.0, GRID_WIDTH) && fy == moved(y, m.1, GRID_HEIGHT);
        assert(dist_sq(els[w], x, y) < 0x1_0000_0000_0000_0000) by {
            let dx = els[w].spec_x() - x;
            let dy = els[w].spec_y() - y;
            assert(dx * dx <= 65535 * 65535 && dy * dy <= 65535 * 65535) by (nonlinear_arith)
                requires
                    -65535 <= dx <= 65535,
                    -65535 <= dy <= 65535,
            ;
        }
        assert(q.min_dist_sq == s.1);
        assert(call_ensures(mover, (q,), m));
    }
}

} // verus!
