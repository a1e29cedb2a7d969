//! Creatures: bags of elements driven by their genes.

use std::hash::DefaultHasher;
use std::hash::Hasher;

use vstd::prelude::*;
use vstd::std_specs::hash::DefaultHasherAdditionalSpecFns;

use crate::config::{
    FUNDAMENTAL_ELEMENT, FUNDAMENTAL_ELEMENT_CONSUMPTION_AMOUNT, FUNDAMENTAL_ELEMENT_INITIAL_AMOUNT,
    GENE_MAX, GENE_MIN, ELEMENTS_MAX, ELEMENTS_MIN, GRID_HEIGHT, GRID_WIDTH, SENSE_BASE_MULTIPLIER, SIZE_BASE_MULTIPLIER,
};
use crate::element::{kind_at, kind_index, lemma_kind_index_roundtrip, Element, ElementKind, ELEMENT_KIND_COUNT};
use crate::gene::Gene;
use crate::rng::{random_index, random_u16};
use crate::step_model::{
    after_burning, exponent_sum, heads_for, lemma_pad_after_death, lemma_runs_index, lemma_runs_skip,
    lemma_step_matches_intro, lemma_step_overflows_intro, lemma_trace_extend, moved_towards, replay, runs,
    runs_upto, step_matches, step_overflows, step_targets, trace_consistent, amounts_of, kinds_of, indices_in_range,
    step_misses_gene, lemma_step_misses_gene_intro,
};
use crate::utils::{clamp_below, get_around, in_grid, neighbour_spec, saturating_add_signed, saturating_add_signed_spec, DIRECTION_COUNT};
use crate::element_map::{amount, entries_positive, halved, lemma_total_le, total, ElementMap};

verus! {

/// Rust's `/` on integers: the quotient rounded toward zero.
pub open spec fn trunc_div(a: int, b: int) -> int {
    if a >= 0 {
        a / b
    } else {
        -((-a) / b)
    }
}

/// Rust's `%` on integers: the remainder takes the sign of the dividend.
pub open spec fn trunc_rem(a: int, b: int) -> int {
    a - b * trunc_div(a, b)
}

/// The four channels of a colour, as the integers that are divided by 255 to give
/// the fractions a renderer uses.
#[derive(Debug, Clone, Copy, PartialEq, Eq, Structural)]
pub struct Rgba {
    pub r: i32,
    pub g: i32,
    pub b: i32,
    pub a: i32,
}

/// The colour of a creature with genome hash `h`: `(h % 255, (h / 255) % 255,
/// (h / 65536) % 255, 255)`, with Rust's rounding toward zero.
pub open spec fn genome_color(h: i32) -> Rgba {
    Rgba {
        r: trunc_rem(h as int, 255) as i32,
        g: trunc_rem(trunc_div(h as int, 255), 255) as i32,
        b: trunc_rem(trunc_div(h as int, 65536), 255) as i32,
        a: 255,
    }
}

/// The hasher writes made for a sequence of genes: those of each gene in turn.
pub open spec fn genome_writes(genes: Seq<Gene>) -> Seq<Seq<u8>>
    decreases genes.len(),
{
    if genes.len() == 0 {
        Seq::empty()
    } else {
        genome_writes(genes.drop_last()) + genes.last().hash_writes()
    }
}

/// The genome hash of a sequence of genes: the digest of a fresh `DefaultHasher`
/// fed with every gene, truncated to 32 bits.
pub open spec fn genome_hash_of(genes: Seq<Gene>) -> i32 {
    DefaultHasher::spec_finish(genome_writes(genes)) as i32
}

/// Two sequences of genes hold the same data, gene by gene.
pub open spec fn same_genes(a: Seq<Gene>, b: Seq<Gene>) -> bool {
    &&& a.len() == b.len()
    &&& forall|i: int| 0 <= i < a.len() ==> (#[trigger] a[i]).same_as(&b[i])
}

/// Genes that hold the same data hash the same.
pub proof fn lemma_same_genes_same_hash(a: Seq<Gene>, b: Seq<Gene>)
    requires
        same_genes(a, b),
    ensures
        genome_writes(a) == genome_writes(b),
        genome_hash_of(a) == genome_hash_of(b),
    decreases a.len(),
{
    if a.len() > 0 {
        lemma_same_genes_same_hash(a.drop_last(), b.drop_last());
        assert(a.last().same_as(&b.last()));
    }
}

/// The elements of a new creature: those given, plus the initial amount of the
/// fundamental element.
pub open spec fn with_initial_fundamental(m: Map<ElementKind, u16>) -> Map<ElementKind, u16> {
    m.insert(
        FUNDAMENTAL_ELEMENT,
        (amount(m, FUNDAMENTAL_ELEMENT) + FUNDAMENTAL_ELEMENT_INITIAL_AMOUNT) as u16,
    )
}


/// Every element lies inside the grid.
pub open spec fn all_in_grid(els: Seq<Element>) -> bool {
    forall|i: int| 0 <= i < els.len() ==> in_grid(#[trigger] els[i].spec_x(), els[i].spec_y())
}

/// The indices, in increasing order, of the elements among the first `n` that lie
/// at `(x, y)`.
pub open spec fn indices_at(els: Seq<Element>, x: u16, y: u16, n: int) -> Seq<usize>
    decreases n,
{
    if n <= 0 {
        Seq::empty()
    } else if els[n - 1].spec_x() == x && els[n - 1].spec_y() == y {
        indices_at(els, x, y, n - 1).push((n - 1) as usize)
    } else {
        indices_at(els, x, y, n - 1)
    }
}

/// The indices of the elements at a cell among the first `n` are all below `n`: the
/// indices a step takes in always name elements of the grid it was given.
pub proof fn lemma_indices_at_below(els: Seq<Element>, x: u16, y: u16, n: int)
    requires
        n <= usize::MAX,
    ensures
        forall|t: int| 0 <= t < indices_at(els, x, y, n).len() ==> #[trigger] indices_at(els, x, y, n)[t] < n,
    decreases n,
{
    if n > 0 {
        lemma_indices_at_below(els, x, y, n - 1);
        let prev = indices_at(els, x, y, n - 1);
        assert forall|t: int| 0 <= t < indices_at(els, x, y, n).len() implies #[trigger] indices_at(els, x, y, n)[t] < n by {
            if t < prev.len() {
                assert(indices_at(els, x, y, n)[t] == prev[t]);
            }
        }
    }
}

/// The number of elements of a kind among the first `n` that lie at `(x, y)`.
pub open spec fn count_at(els: Seq<Element>, x: u16, y: u16, kind: ElementKind, n: int) -> int
    decreases n,
{
    if n <= 0 {
        0
    } else if els[n - 1].spec_x() == x && els[n - 1].spec_y() == y && els[n - 1].spec_kind()
        == kind {
        count_at(els, x, y, kind, n - 1) + 1
    } else {
        count_at(els, x, y, kind, n - 1)
    }
}

/// The amounts after taking in, one by one, the first `n` of the elements that lie at
/// `(x, y)`: a kind gets an entry when one of its elements is taken in.
pub open spec fn after_consuming(
    m: Map<ElementKind, u16>,
    els: Seq<Element>,
    x: u16,
    y: u16,
    n: int,
) -> Map<ElementKind, u16> {
    Map::new(
        |k: ElementKind| m.contains_key(k) || count_at(els, x, y, k, n) > 0,
        |k: ElementKind| (amount(m, k) + count_at(els, x, y, k, n)) as u16,
    )
}

/// Taking in all the elements at `(x, y)` overflows no amount.
pub open spec fn consumption_fits(m: Map<ElementKind, u16>, els: Seq<Element>, x: u16, y: u16) -> bool {
    forall|k: ElementKind| amount(m, k) + #[trigger] count_at(els, x, y, k, els.len() as int) <= u16::MAX
}

/// Counting over a longer prefix never gives less.
proof fn lemma_count_at_monotone(els: Seq<Element>, x: u16, y: u16, kind: ElementKind, i: int, n: int)
    requires
        0 <= i <= n,
    ensures
        count_at(els, x, y, kind, i) <= count_at(els, x, y, kind, n),
        count_at(els, x, y, kind, i) >= 0,
    decreases n,
{
    if i < n {
        lemma_count_at_monotone(els, x, y, kind, i, n - 1);
    } else if n > 0 {
        lemma_count_at_monotone(els, x, y, kind, n - 1, n - 1);
    }
}

/// What a creature asks of the outside to move: its speed is
/// `SPEED_BASE_MULTIPLIER * 2^speed_exponent`, `(dx, dy)` is the offset of the last
/// element of the target kind seen, and `min_dist_sq` the squared distance of the
/// nearest one within sensing range. The move along each axis is
/// `speed * d / max(1, sqrt(min_dist_sq))`, rounded toward zero.
#[derive(Debug, Clone, Copy, PartialEq, Eq, Structural)]
pub struct MoveRequest {
    pub speed_exponent: i64,
    pub dx: i32,
    pub dy: i32,
    pub min_dist_sq: u64,
}

/// `4^n`.
pub open spec fn pow4(n: nat) -> nat
    decreases n,
{
    if n == 0 {
        1
    } else {
        4 * pow4((n - 1) as nat)
    }
}

/// `4^n` grows with `n`.
proof fn lemma_pow4_monotone(m: nat, n: nat)
    requires
        m <= n,
    ensures
        pow4(m) <= pow4(n),
        pow4(m) >= 1,
    decreases n,
{
    if m < n {
        lemma_pow4_monotone(m, (n - 1) as nat);
    } else if n > 0 {
        lemma_pow4_monotone((n - 1) as nat, (n - 1) as nat);
    }
}

/// A squared distance `d` is below the square of the sensing radius
/// `SENSE_BASE_MULTIPLIER * 2^t`, compared exactly.
pub open spec fn within_sense(d: int, t: int) -> bool {
    if t >= 0 {
        d < SENSE_BASE_MULTIPLIER * SENSE_BASE_MULTIPLIER * pow4(t as nat)
    } else {
        d * pow4((-t) as nat) < SENSE_BASE_MULTIPLIER * SENSE_BASE_MULTIPLIER
    }
}

/// The scan of the first `n` elements for the nearest one of the target kind within
/// sensing range of `(x, y)`: whether one was found, its squared distance, and the
/// offset of the last element of the target kind seen. Elements at distance 0 are
/// passed over for the nearest, but their offset is still recorded.
pub open spec fn scan(
    els: Seq<Element>,
    target: ElementKind,
    x: u16,
    y: u16,
    sense_exponent: int,
    n: int,
) -> (bool, int, int, int)
    decreases n,
{
    if n <= 0 {
        (false, 0, 0, 0)
    } else {
        let prev = scan(els, target, x, y, sense_exponent, n - 1);
        let e = els[n - 1];
        if e.spec_kind() != target {
            prev
        } else {
            let dx = e.spec_x() - x;
            let dy = e.spec_y() - y;
            let d = dx * dx + dy * dy;
            if d == 0 {
                (prev.0, prev.1, dx, dy)
            } else if (if prev.0 {
                d < prev.1
            } else {
                within_sense(d, sense_exponent)
            }) {
                (true, d, dx, dy)
            } else {
                (prev.0, prev.1, dx, dy)
            }
        }
    }
}


/// `a - b`, stopping at 0.
pub open spec fn sat_sub(a: u16, b: u16) -> u16 {
    if a >= b {
        (a - b) as u16
    } else {
        0
    }
}

/// `m` after taking, for each of the first `n` kinds that `sub` has an entry for,
/// `sub[k]` elements of kind `k`, stopping at 0; each such kind gets an entry.
pub open spec fn subtract_upto(m: Map<ElementKind, u16>, sub: Map<ElementKind, u16>, n: int) -> Map<ElementKind, u16> {
    Map::new(
        |k: ElementKind| m.contains_key(k) || (sub.contains_key(k) && kind_index(k) < n),
        |k: ElementKind| if sub.contains_key(k) && kind_index(k) < n {
            sat_sub(amount(m, k), sub[k])
        } else {
            m[k]
        },
    )
}

/// `m` after taking `sub[k]` elements of each kind `k` of `sub`, stopping at 0.
pub open spec fn subtract(m: Map<ElementKind, u16>, sub: Map<ElementKind, u16>) -> Map<ElementKind, u16> {
    subtract_upto(m, sub, ELEMENT_KIND_COUNT as int)
}

/// `m` after adding, for each of the first `n` kinds that `add` has an entry for,
/// `add[k]` elements of kind `k`.
pub open spec fn add_upto(m: Map<ElementKind, u16>, add: Map<ElementKind, u16>, n: int) -> Map<ElementKind, u16> {
    Map::new(
        |k: ElementKind| m.contains_key(k) || (add.contains_key(k) && kind_index(k) < n),
        |k: ElementKind| if add.contains_key(k) && kind_index(k) < n {
            (amount(m, k) + add[k]) as u16
        } else {
            m[k]
        },
    )
}

/// A kind the gene needs more of than `m` holds.
pub open spec fn shortfall(m: Map<ElementKind, u16>, gene: Gene, k: ElementKind) -> bool {
    gene.spec_needed().contains_key(k) && amount(m, k) < gene.spec_needed()[k]
}

/// The gene may run on `m`: every kind it is short of is one it holds some of, and the
/// gene is critical (a critical gene then runs only where luck is on its side).
pub open spec fn may_run(m: Map<ElementKind, u16>, gene: Gene) -> bool {
    forall|k: ElementKind| #[trigger] shortfall(m, gene, k) ==> gene.spec_critical() && amount(m, k) > 0
}

/// What `luck` answered when a gene was tried on `m`: a gene that got past its
/// shortfalls (`passed`) while short of some kind had luck say yes; a gene that may run
/// but did not get past them had luck say no.
pub open spec fn luck_agrees<L: Fn() -> bool>(luck: L, m: Map<ElementKind, u16>, gene: Gene, passed: bool) -> bool {
    &&& passed && (exists|k: ElementKind| shortfall(m, gene, k)) ==> call_ensures(luck, (), true)
    &&& !passed && may_run(m, gene) ==> call_ensures(luck, (), false)
}

/// The amounts once the needed elements are used up.
pub open spec fn after_needs(m: Map<ElementKind, u16>, gene: Gene) -> Map<ElementKind, u16> {
    subtract(m, gene.spec_needed())
}

/// Adding the produced elements overflows no amount.
pub open spec fn production_fits(m: Map<ElementKind, u16>, gene: Gene) -> bool {
    forall|k: ElementKind| #[trigger] gene.spec_produced().contains_key(k) ==> amount(after_needs(m, gene), k) + gene.spec_produced()[k] <= u16::MAX
}

/// The amounts once the needed elements are used up and the produced ones added.
pub open spec fn after_production(m: Map<ElementKind, u16>, gene: Gene) -> Map<ElementKind, u16> {
    add_upto(after_needs(m, gene), gene.spec_produced(), ELEMENT_KIND_COUNT as int)
}

/// The amounts once the gene has run: the ejected elements (as many as are held) leave.
pub open spec fn after_gene(m: Map<ElementKind, u16>, gene: Gene) -> Map<ElementKind, u16> {
    subtract(after_production(m, gene), gene.spec_ejected())
}

/// The kinds of the elements ejected for the first `n` kinds, in the order they are
/// ejected: for each kind of `ej` in declaration order, `min(ej[k], m[k])` of them.
pub open spec fn ejected_kinds_upto(m: Map<ElementKind, u16>, ej: Map<ElementKind, u16>, n: int) -> Seq<ElementKind>
    decreases n,
{
    if n <= 0 {
        Seq::empty()
    } else {
        let k = kind_at(n - 1);
        let prev = ejected_kinds_upto(m, ej, n - 1);
        if ej.contains_key(k) {
            let e = if ej[k] <= amount(m, k) { ej[k] } else { amount(m, k) };
            prev + Seq::new(e as nat, |i: int| k)
        } else {
            prev
        }
    }
}

/// The kinds of the elements a run of the gene ejects, in order.
pub open spec fn ejected_kinds(m: Map<ElementKind, u16>, gene: Gene) -> Seq<ElementKind> {
    ejected_kinds_upto(after_production(m, gene), gene.spec_ejected(), ELEMENT_KIND_COUNT as int)
}

/// The element lies on a cell next to `(x, y)` (see `neighbour_spec`).
pub open spec fn is_around(e: Element, x: u16, y: u16) -> bool {
    exists|d: int| 0 <= d < DIRECTION_COUNT && (e.spec_x(), e.spec_y()) == #[trigger] neighbour_spec(x, y, d)
}


/// Where a coordinate `v` ends up after a move of `m` cells: the move is cut to 16 bits,
/// added without leaving the range of `u16`, and the result kept below `bound`.
pub open spec fn moved(v: u16, m: i32, bound: u16) -> u16 {
    clamp_below(saturating_add_signed_spec(v, (m as i16) as int), bound)
}

/// The genes can be read at every repetition index: a gene that runs twice needs a
/// second gene to exist, since the size, speed, sense and target of a step are read
/// from the gene at the repetition index.
pub open spec fn repetitions_fit(genes: Seq<Gene>) -> bool {
    forall|j: int| 0 <= j < genes.len() && (#[trigger] genes[j]).spec_frequency_exponent() >= 1 ==> genes.len() >= 2
}

/// The creature meets what a step needs: the number of its genes fits in 32 bits
/// (the exponents of a step are summed over at most twice that many runs).
pub open spec fn can_step(c: Creature, els: Seq<Element>) -> bool {
    c.spec_genes().len() <= u32::MAX
}


/// How many times a gene runs in a step: `2^f` for a frequency exponent `f >= 0`, none
/// for a negative one.
pub open spec fn repetitions(gene: Gene) -> int {
    if gene.spec_frequency_exponent() < 0 {
        0
    } else {
        pow2(gene.spec_frequency_exponent() as nat) as int
    }
}

/// The most elements of a kind that the first `n` genes can produce in one step.
pub open spec fn gain_upto(genes: Seq<Gene>, kind: ElementKind, n: int) -> int
    decreases n,
{
    if n <= 0 {
        0
    } else {
        gain_upto(genes, kind, n - 1) + repetitions(genes[n - 1]) * amount(genes[n - 1].spec_produced(), kind)
    }
}

/// The number of elements of a kind among the first `n`.
pub open spec fn count_kind(els: Seq<Element>, kind: ElementKind, n: int) -> int
    decreases n,
{
    if n <= 0 {
        0
    } else if els[n - 1].spec_kind() == kind {
        count_kind(els, kind, n - 1) + 1
    } else {
        count_kind(els, kind, n - 1)
    }
}

/// No amount can overflow during a step: even if every gene ran as often as it may and
/// the creature took in every element of the grid, every amount would stay within
/// `u16`.
pub open spec fn growth_fits(c: Creature, els: Seq<Element>) -> bool {
    forall|k: ElementKind| amount(c.spec_elements(), k) + gain_upto(c.spec_genes(), k, c.spec_genes().len() as int) + count_kind(els, k, els.len() as int) <= u16::MAX
}

/// Why a step of a creature could not go on.
#[derive(Debug, Clone, Copy, PartialEq, Eq, Structural)]
pub enum CreatureError {
    /// An amount of elements would have gone past `u16::MAX`.
    AmountOverflow,
    /// A recorded repetition index is past the creature's last gene, so the gene whose
    /// size, speed and sense it stands for cannot be read.
    MissingGene,
}

/// What a step of a creature gave: whether it lives on, the creatures it gave birth
/// to, the indices of the grid elements it took in, and the elements it ejected.
pub struct CreatureResult {
    pub alive: bool,
    pub offsprings: Vec<Creature>,
    pub consumed_element_indices: Vec<usize>,
    pub ejected_elements: Vec<Element>,
}

impl CreatureResult {
    fn new() -> (r: Self)
        ensures
            r.alive,
            r.offsprings@.len() == 0,
            r.consumed_element_indices@.len() == 0,
            r.ejected_elements@.len() == 0,
    {
        CreatureResult {
            alive: true,
            offsprings: Vec::new(),
            consumed_element_indices: Vec::new(),
            ejected_elements: Vec::new(),
        }
    }
}

/// What a run of a gene gave: whether it ran, and the elements it ejected.
struct GeneResult {
    produced: bool,
    ejected_elements: Vec<Element>,
}

/// A creature: a position on the grid, genes, and the elements it holds.
pub struct Creature {
    x: u16,
    y: u16,
    genes: Vec<Gene>,
    elements: ElementMap,
    color: Rgba,
    genome_hash: i32,
}

/// Copies of the genes, gene by gene.
fn clone_genes(genes: &Vec<Gene>) -> (r: Vec<Gene>)
    ensures
        same_genes(r@, genes@),
{
    let mut r: Vec<Gene> = Vec::new();
    let mut i: usize = 0;
    while i < genes.len()
        invariant
            i <= genes@.len(),
            r@.len() == i,
            forall|j: int| 0 <= j < i ==> (#[trigger] r@[j]).same_as(&genes@[j]),
        decreases genes@.len() - i,
    {
        r.push(genes[i].clone());
        i = i + 1;
    }
    r
}

/// Feeds every gene to a fresh hasher and returns its digest truncated to 32 bits.
fn genome_hash(genes: &Vec<Gene>) -> (r: i32)
    ensures
        r == genome_hash_of(genes@),
{
    let mut hasher = DefaultHasher::new();
    let mut i: usize = 0;
    while i < genes.len()
        invariant
            i <= genes@.len(),
            hasher@ == genome_writes(genes@.take(i as int)),
        decreases genes@.len() - i,
    {
        genes[i].hash_into(&mut hasher);
        assert(genes@.take(i + 1).drop_last() =~= genes@.take(i as int));
        i = i + 1;
    }
    assert(genes@.take(genes@.len() as int) =~= genes@);
    let h = hasher.finish();
    h as i32
}

/// The colour of a genome hash (see `genome_color`).
fn color_of(h: i32) -> (r: Rgba)
    ensures
        r == genome_color(h),
{
    let wide: i64 = h as i64;
    let r = wide % 255;
    let g = (wide / 255) % 255;
    let b = (wide / 65536) % 255;
    Rgba { r: r as i32, g: g as i32, b: b as i32, a: 255 }
}

impl Creature {
    /// The genome hash of a creature is that of its genes, and its colour that of its
    /// genome hash.
    #[verifier::type_invariant]
    closed spec fn hash_matches_genes(self) -> bool {
        &&& self.genome_hash == genome_hash_of(self.genes@)
        &&& self.color == genome_color(self.genome_hash)
    }

    pub closed spec fn spec_x(&self) -> u16 {
        self.x
    }

    pub closed spec fn spec_y(&self) -> u16 {
        self.y
    }

    pub closed spec fn spec_genes(&self) -> Seq<Gene> {
        self.genes@
    }

    pub closed spec fn spec_elements(&self) -> Map<ElementKind, u16> {
        self.elements@
    }

    pub closed spec fn spec_color(&self) -> Rgba {
        self.color
    }

    pub closed spec fn spec_genome_hash(&self) -> i32 {
        self.genome_hash
    }

    /// A creature at `(x, y)` with the given genes and elements, to which the initial
    /// amount of the fundamental element is added; its genome hash and colour are
    /// computed from its genes.
    pub fn new(x: u16, y: u16, genes: Vec<Gene>, elements: ElementMap) -> (r: Self)
        requires
            amount(elements@, FUNDAMENTAL_ELEMENT) + FUNDAMENTAL_ELEMENT_INITIAL_AMOUNT
                <= u16::MAX,
        ensures
            r.spec_x() == x,
            r.spec_y() == y,
            r.spec_genes() == genes@,
            r.spec_elements() == with_initial_fundamental(elements@),
            r.spec_genome_hash() == genome_hash_of(genes@),
            r.spec_color() == genome_color(genome_hash_of(genes@)),
    {
        let genome_hash = genome_hash(&genes);
        let mut new_elements = elements;
        new_elements.add(FUNDAMENTAL_ELEMENT, FUNDAMENTAL_ELEMENT_INITIAL_AMOUNT);
        let color = color_of(genome_hash);
        Creature { x, y, genes, elements: new_elements, color, genome_hash }
    }

    /// A new creature at `(x, y)` with copies of this creature's genes and half of each
    /// of its elements, rounded down; this creature keeps the same rounded-down half
    /// (an odd amount loses one element). The new creature then receives the initial
    /// fundamental amount.
    pub fn reproduce(&mut self, x: u16, y: u16) -> (r: Creature)
        ensures
            final(self).spec_x() == old(self).spec_x(),
            final(self).spec_y() == old(self).spec_y(),
            final(self).spec_genes() == old(self).spec_genes(),
            final(self).spec_genome_hash() == old(self).spec_genome_hash(),
            final(self).spec_color() == old(self).spec_color(),
            final(self).spec_elements() == halved(old(self).spec_elements()),
            r.spec_x() == x,
            r.spec_y() == y,
            same_genes(r.spec_genes(), old(self).spec_genes()),
            r.spec_elements() == with_initial_fundamental(halved(old(self).spec_elements())),
            r.spec_genome_hash() == genome_hash_of(r.spec_genes()),
            r.spec_color() == genome_color(r.spec_genome_hash()),
            r.spec_genome_hash() == old(self).spec_genome_hash(),
            r.spec_color() == old(self).spec_color(),
    {
        proof {
            use_type_invariant(&*self);
        }
        let new_genes = clone_genes(&self.genes);
        proof {
            lemma_same_genes_same_hash(new_genes@, self.genes@);
        }
        let new_elements = self.elements.halved();
        let mut elements = self.take_elements();
        elements.halve();
        self.elements = elements;
        Creature::new(x, y, new_genes, new_elements)
    }

    /// A copy of this creature made through `new`: same place, copies of the genes and
    /// the same elements, to which the initial fundamental amount is added once more.
    pub fn clone(&self) -> (r: Creature)
        requires
            amount(self.spec_elements(), FUNDAMENTAL_ELEMENT) + FUNDAMENTAL_ELEMENT_INITIAL_AMOUNT
                <= u16::MAX,
        ensures
            r.spec_x() == self.spec_x(),
            r.spec_y() == self.spec_y(),
            same_genes(r.spec_genes(), self.spec_genes()),
            r.spec_elements() == with_initial_fundamental(self.spec_elements()),
            r.spec_genome_hash() == genome_hash_of(r.spec_genes()),
            r.spec_color() == genome_color(r.spec_genome_hash()),
            r.spec_genome_hash() == self.spec_genome_hash(),
            r.spec_color() == self.spec_color(),
    {
        proof {
            use_type_invariant(self);
        }
        let genes = clone_genes(&self.genes);
        proof {
            lemma_same_genes_same_hash(genes@, self.genes@);
        }
        Creature::new(self.x, self.y, genes, self.elements.clone())
    }

    /// The colour of the creature, derived from its genome hash.
    pub fn get_color(&self) -> (r: Rgba)
        ensures
            r == self.spec_color(),
    {
        self.color
    }

    pub fn get_genome_hash(&self) -> (r: i32)
        ensures
            r == self.spec_genome_hash(),
    {
        self.genome_hash
    }

    pub fn get_elements(&self) -> (r: &ElementMap)
        ensures
            r@ == self.spec_elements(),
    {
        &self.elements
    }

    pub fn get_x(&self) -> (r: u16)
        ensures
            r == self.spec_x(),
    {
        self.x
    }

    pub fn get_y(&self) -> (r: u16)
        ensures
            r == self.spec_y(),
    {
        self.y
    }

    /// Adds `amount` elements of a kind.
    pub fn add_elements(&mut self, element_kind: ElementKind, amount: u16)
        requires
            crate::element_map::amount(old(self).spec_elements(), element_kind) + amount <= u16::MAX,
        ensures
            final(self).spec_elements() == old(self).spec_elements().insert(
                element_kind,
                (crate::element_map::amount(old(self).spec_elements(), element_kind)
                    + amount) as u16,
            ),
            final(self).same_but_elements(old(self)),
    {
        proof {
            use_type_invariant(&*self);
        }
        let mut elements = self.take_elements();
        elements.add(element_kind, amount);
        self.elements = elements;
    }

    /// Takes `amount` elements of a kind, stopping at 0.
    pub fn remove_elements(&mut self, element_kind: ElementKind, amount: u16)
        ensures
            final(self).spec_elements() == old(self).spec_elements().insert(
                element_kind,
                if crate::element_map::amount(old(self).spec_elements(), element_kind) >= amount {
                    (crate::element_map::amount(old(self).spec_elements(), element_kind)
                        - amount) as u16
                } else {
                    0
                },
            ),
            final(self).same_but_elements(old(self)),
    {
        proof {
            use_type_invariant(&*self);
        }
        let mut elements = self.take_elements();
        elements.remove_saturating(element_kind, amount);
        self.elements = elements;
    }

    /// Takes the elements out of the creature, leaving it an empty map.
    fn take_elements(&mut self) -> (r: ElementMap)
        ensures
            r@ == old(self).spec_elements(),
            final(self).same_but_elements(old(self)),
    {
        proof {
            use_type_invariant(&*self);
        }
        let mut e = ElementMap::new();
        std::mem::swap(&mut e, &mut self.elements);
        e
    }

    /// Everything but the elements is the same in both creatures.
    pub open spec fn same_but_elements(&self, other: &Creature) -> bool {
        &&& self.spec_x() == other.spec_x()
        &&& self.spec_y() == other.spec_y()
        &&& self.spec_genes() == other.spec_genes()
        &&& self.spec_color() == other.spec_color()
        &&& self.spec_genome_hash() == other.spec_genome_hash()
    }
}

/// Whether the squared distance `d` is within the sensing radius for exponent `t`
/// (see `within_sense`).
fn is_within_sense(d: u64, t: i64) -> (r: bool)
    requires
        1 <= d < 0x2_0000_0000,
    ensures
        r == within_sense(d as int, t as int),
{
    if t >= 9 {
        proof {
            lemma_pow4_monotone(9, t as nat);
            assert(pow4(9) == 262144) by {
                reveal_with_fuel(pow4, 10);
            }
        }
        true
    } else if t <= -9 {
        proof {
            lemma_pow4_monotone(9, (-t) as nat);
            assert(pow4(9) == 262144) by {
                reveal_with_fuel(pow4, 10);
            }
            assert(d * pow4((-t) as nat) >= pow4((-t) as nat)) by (nonlinear_arith)
                requires
                    d >= 1,
            ;
        }
        false
    } else {
        let mut lhs: u64 = d as u64;
        let base: u64 = SENSE_BASE_MULTIPLIER as u64;
        assert(base == 200);
        let mut rhs: u64 = base * base;
        let n: i64 = if t >= 0 {
            t
        } else {
            -t
        };
        let mut i: i64 = 0;
        assert(pow4(0) == 1);
        assert(d * pow4(0) == d);
        while i < n
            invariant
                0 <= i <= n < 9,
                n == (if t >= 0 { t as int } else { -t }),
                t >= 0 ==> lhs == d && rhs == 40000 * pow4(i as nat),
                t < 0 ==> rhs == 40000 && lhs == d * pow4(i as nat),
                d < 0x2_0000_0000,
            decreases n - i,
        {
            proof {
                lemma_pow4_monotone(i as nat, 8);
                assert(pow4(8) == 65536) by {
                    reveal_with_fuel(pow4, 9);
                }
                assert(d * pow4(i as nat) <= 0x2_0000_0000 * 65536) by (nonlinear_arith)
                    requires
                        d < 0x2_0000_0000,
                        pow4(i as nat) <= 65536,
                ;
                assert(d * pow4((i + 1) as nat) == 4 * (d * pow4(i as nat))) by (nonlinear_arith)
                    requires
                        pow4((i + 1) as nat) == 4 * pow4(i as nat),
                ;
            }
            if t >= 0 {
                rhs = rhs * 4;
            } else {
                lhs = lhs * 4;
            }
            i = i + 1;
        }
        lhs < rhs
    }
}

impl Creature {
    /// Takes in every element lying at the creature's cell, one more of its kind for
    /// each, and returns their indices in increasing order.
    fn consume_elements(&mut self, elements: &Vec<Element>) -> (r: Result<Vec<usize>, CreatureError>)
        ensures
            final(self).same_but_elements(old(self)),
            r is Ok <==> consumption_fits(old(self).spec_elements(), elements@, old(self).spec_x(), old(self).spec_y()),
            r matches Ok(v) ==> {
                &&& v@ == indices_at(elements@, old(self).spec_x(), old(self).spec_y(), elements@.len() as int)
                &&& final(self).spec_elements() == after_consuming(
                    old(self).spec_elements(),
                    elements@,
                    old(self).spec_x(),
                    old(self).spec_y(),
                    elements@.len() as int,
                )
            },
    {
        proof {
            use_type_invariant(&*self);
        }
        let ghost start = self.elements@;
        let x = self.x;
        let y = self.y;
        let mut held = self.take_elements();
        let mut elements_to_remove: Vec<usize> = Vec::new();
        let mut i: usize = 0;
        proof {
            assert(after_consuming(start, elements@, x, y, 0) =~= start);
        }
        while i < elements.len()
            invariant
                i <= elements@.len(),
                self.x == x,
                self.y == y,
                x == old(self).spec_x() && y == old(self).spec_y(),
                self.genome_hash == genome_hash_of(self.genes@),
                self.color == genome_color(self.genome_hash),
                self.same_but_elements(old(self)),
                start == old(self).spec_elements(),
                held@ == after_consuming(start, elements@, x, y, i as int),
                forall|k: ElementKind| amount(start, k) + #[trigger] count_at(elements@, x, y, k, i as int) <= u16::MAX,
                elements_to_remove@ == indices_at(elements@, x, y, i as int),
            decreases elements@.len() - i,
        {
            let element = &elements[i];
            let dx: i64 = *element.get_x() as i64 - x as i64;
            let dy: i64 = *element.get_y() as i64 - y as i64;
            assert(dx * dx <= 65535 * 65535 && dy * dy <= 65535 * 65535) by (nonlinear_arith)
                requires
                    -65535 <= dx <= 65535,
                    -65535 <= dy <= 65535,
            ;
            assert(dx * dx >= 0 && dy * dy >= 0) by (nonlinear_arith);
            assert((dx * dx + dy * dy == 0) == (dx == 0 && dy == 0)) by (nonlinear_arith);
            let dist_sq: i64 = dx * dx + dy * dy;
            if dist_sq == 0 {
                let kind = element.get_kind();
                let current = held.amount_of(kind);
                if current == u16::MAX {
                    proof {
                        lemma_count_at_monotone(elements@, x, y, kind, i + 1, elements@.len() as int);
                        lemma_count_at_monotone(elements@, x, y, kind, 0, i as int);
                    }
                    self.elements = held;
                    return Err(CreatureError::AmountOverflow);
                }
                proof {
                    lemma_count_at_monotone(elements@, x, y, kind, 0, i as int);
                }
                held.add(kind, 1);
                elements_to_remove.push(i);
                assert forall|k: ElementKind| #[trigger] count_at(elements@, x, y, k, i + 1) == count_at(elements@, x, y, k, i as int) + (if k == kind { 1int } else { 0int }) by {
                }
                assert forall|k: ElementKind| amount(start, k) + #[trigger] count_at(elements@, x, y, k, i + 1) <= u16::MAX by {
                    if k == kind {
                        assert(count_at(elements@, x, y, k, i + 1) == count_at(elements@, x, y, k, i as int) + 1);
                    } else {
                        assert(count_at(elements@, x, y, k, i + 1) == count_at(elements@, x, y, k, i as int));
                    }
                }
                assert(held@ =~= after_consuming(start, elements@, x, y, i + 1));
            } else {
                assert forall|k: ElementKind| #[trigger] count_at(elements@, x, y, k, i + 1) == count_at(elements@, x, y, k, i as int) by {
                }
                assert(held@ =~= after_consuming(start, elements@, x, y, i + 1));
            }
            i = i + 1;
        }
        self.elements = held;
        Ok(elements_to_remove)
    }

    /// Scans the elements for the nearest one of the target kind within sensing range
    /// (see `scan`); when there is one, hands the request to `mover` and returns its
    /// answer, else returns no move.
    pub fn compute_move<M: Fn(MoveRequest) -> (i32, i32)>(
        &self,
        target: ElementKind,
        speed_exponent: i64,
        sense_exponent: i64,
        elements: &Vec<Element>,
        mover: &M,
    ) -> (r: (i32, i32))
        requires
            forall|q: MoveRequest| call_requires(*mover, (q,)),
        ensures
            ({
                let s = scan(elements@, target, self.spec_x(), self.spec_y(), sense_exponent as int, elements@.len() as int);
                &&& !s.0 ==> r == (0i32, 0i32)
                &&& s.0 ==> call_ensures(
                    *mover,
                    (MoveRequest {
                        speed_exponent,
                        dx: s.2 as i32,
                        dy: s.3 as i32,
                        min_dist_sq: s.1 as u64,
                    },),
                    r,
                )
            }),
    {
        let ghost x = self.x;
        let ghost y = self.y;
        let mut found = false;
        let mut min_dist_sq: u64 = 0;
        let mut dx: i32 = 0;
        let mut dy: i32 = 0;
        let mut i: usize = 0;
        while i < elements.len()
            invariant
                i <= elements@.len(),
                self.x == x,
                self.y == y,
                scan(elements@, target, x, y, sense_exponent as int, i as int) == (found, min_dist_sq as int, dx as int, dy as int),
                found ==> 1 <= min_dist_sq <= 2 * 65535 * 65535,
            decreases elements@.len() - i,
        {
            let element = &elements[i];
            if element.get_kind() != target {
                i = i + 1;
                continue;
            }
            dx = *element.get_x() as i32 - self.x as i32;
            dy = *element.get_y() as i32 - self.y as i32;
            let wx: i64 = dx as i64;
            let wy: i64 = dy as i64;
            assert(wx * wx <= 65535 * 65535 && wy * wy <= 65535 * 65535) by (nonlinear_arith)
                requires
                    -65535 <= wx <= 65535,
                    -65535 <= wy <= 65535,
            ;
            assert(wx * wx >= 0 && wy * wy >= 0) by (nonlinear_arith);
            let dist_sq: i64 = wx * wx + wy * wy;
            if dist_sq == 0 {
                i = i + 1;
                continue;
            }
            let closer = if found {
                (dist_sq as u64) < min_dist_sq
            } else {
                is_within_sense(dist_sq as u64, sense_exponent)
            };
            if closer {
                min_dist_sq = dist_sq as u64;
                found = true;
            }
            i = i + 1;
        }
        if found {
            mover(MoveRequest { speed_exponent, dx, dy, min_dist_sq })
        } else {
            (0, 0)
        }
    }
}

impl Creature {
    /// Runs a gene once. The gene does not run if it needs more of a kind than the
    /// creature holds, unless it is critical, the creature holds some of that kind and
    /// `luck` (asked once per such kind, in declaration order) says yes; a gene that is
    /// not critical asks `luck` once, at the first kind it is short of, and stops
    /// there. When it runs it uses up the needed elements (as many as are held), adds
    /// the produced ones, then ejects onto cells around the creature as many of each
    /// ejected kind as it holds, up to the gene's amount.
    fn produce_gene<L: Fn() -> bool>(&mut self, gene: &Gene, luck: &L) -> (r: Result<GeneResult, CreatureError>)
        requires
            call_requires(*luck, ()),
        ensures
            final(self).same_but_elements(old(self)),
            match r {
                Err(_) => {
                    &&& may_run(old(self).spec_elements(), *gene)
                    &&& !production_fits(old(self).spec_elements(), *gene)
                    &&& final(self).spec_elements() == old(self).spec_elements()
                },
                Ok(g) => if g.produced {
                    &&& may_run(old(self).spec_elements(), *gene)
                    &&& production_fits(old(self).spec_elements(), *gene)
                    &&& final(self).spec_elements() == after_gene(old(self).spec_elements(), *gene)
                    &&& g.ejected_elements@.len() == ejected_kinds(old(self).spec_elements(), *gene).len()
                    &&& forall|t: int| 0 <= t < g.ejected_elements@.len() ==> {
                        &&& (#[trigger] g.ejected_elements@[t]).spec_kind() == ejected_kinds(old(self).spec_elements(), *gene)[t]
                        &&& is_around(g.ejected_elements@[t], old(self).spec_x(), old(self).spec_y())
                    }
                } else {
                    &&& exists|k: ElementKind| shortfall(old(self).spec_elements(), *gene, k)
                    &&& final(self).spec_elements() == old(self).spec_elements()
                    &&& g.ejected_elements@.len() == 0
                },
            },
            (forall|k: ElementKind| !shortfall(old(self).spec_elements(), *gene, k)) ==> (r is Ok <==> production_fits(old(self).spec_elements(), *gene)),
            (forall|k: ElementKind| !shortfall(old(self).spec_elements(), *gene, k)) && production_fits(old(self).spec_elements(), *gene) ==> (r matches Ok(g) && g.produced),
            r matches Ok(g) ==> luck_agrees(*luck, old(self).spec_elements(), *gene, g.produced),
            r is Err ==> luck_agrees(*luck, old(self).spec_elements(), *gene, true),
    {
        proof {
            use_type_invariant(&*self);
        }
        let mut elements = self.take_elements();
        let r = run_gene(&mut elements, self.x, self.y, gene, luck);
        self.elements = elements;
        r
    }
}

/// Runs a gene once. The gene does not run if it needs more of a kind than the
/// creature holds, unless it is critical, the creature holds some of that kind and
/// `luck` (asked once per such kind, in declaration order) says yes; a gene that is
/// not critical asks `luck` once, at the first kind it is short of, and stops
/// there. When it runs it uses up the needed elements (as many as are held), adds
/// the produced ones, then ejects onto cells around the creature as many of each
/// ejected kind as it holds, up to the gene's amount.
fn run_gene<L: Fn() -> bool>(elements: &mut ElementMap, x: u16, y: u16, gene: &Gene, luck: &L) -> (r: Result<GeneResult, CreatureError>)
    requires
        call_requires(*luck, ()),
    ensures
        match r {
            Err(_) => {
                &&& may_run(old(elements)@, *gene)
                &&& !production_fits(old(elements)@, *gene)
                &&& final(elements)@ == old(elements)@
            },
            Ok(g) => if g.produced {
                &&& may_run(old(elements)@, *gene)
                &&& production_fits(old(elements)@, *gene)
                &&& final(elements)@ == after_gene(old(elements)@, *gene)
                &&& g.ejected_elements@.len() == ejected_kinds(old(elements)@, *gene).len()
                &&& forall|t: int| 0 <= t < g.ejected_elements@.len() ==> {
                    &&& (#[trigger] g.ejected_elements@[t]).spec_kind() == ejected_kinds(old(elements)@, *gene)[t]
                    &&& is_around(g.ejected_elements@[t], x, y)
                }
            } else {
                &&& exists|k: ElementKind| shortfall(old(elements)@, *gene, k)
                &&& final(elements)@ == old(elements)@
                &&& g.ejected_elements@.len() == 0
            },
        },
        (forall|k: ElementKind| !shortfall(old(elements)@, *gene, k)) ==> (r is Ok <==> production_fits(old(elements)@, *gene)),
        (forall|k: ElementKind| !shortfall(old(elements)@, *gene, k)) && production_fits(old(elements)@, *gene) ==> (r matches Ok(g) && g.produced),
        r matches Ok(g) ==> luck_agrees(*luck, old(elements)@, *gene, g.produced),
        r is Err ==> luck_agrees(*luck, old(elements)@, *gene, true),
{
    let ghost m = elements@;
    let needed = gene.get_elements_needed();
    let produced = gene.get_elements_produced();
    let ejected = gene.get_elements_ejected();
    let critical = gene.is_critical();
    // Whether every needed kind is held in the needed amount, or luck allows otherwise.
    let ghost mut said_yes = false;
    let mut i: usize = 0;
    while i < ELEMENT_KIND_COUNT
        invariant
            i <= ELEMENT_KIND_COUNT,
            elements@ == m,
            needed@ == gene.spec_needed(),
            critical == gene.spec_critical(),
            call_requires(*luck, ()),
            forall|k: ElementKind| kind_index(k) < i && #[trigger] shortfall(m, *gene, k) ==> critical && amount(m, k) > 0,
            forall|k: ElementKind| kind_index(k) < i && #[trigger] shortfall(m, *gene, k) ==> said_yes,
            said_yes ==> call_ensures(*luck, (), true),
        decreases ELEMENT_KIND_COUNT - i,
    {
        let kind = ElementKind::from_index(i);
        proof {
            assert forall|k: ElementKind| #![auto] kind_index(k) == i ==> k == kind by {
                lemma_kind_index_roundtrip(k, i as int);
            }
        }
        match needed.get(kind) {
            Some(quantity) => {
                let have = elements.amount_of(kind);
                if have < quantity {
                    let lucky = luck();
                    if (critical && !lucky) || !critical || have == 0 {
                        assert(shortfall(m, *gene, kind));
                        assert(may_run(m, *gene) ==> !lucky);
                        return Ok(GeneResult { produced: false, ejected_elements: Vec::new() });
                    }
                    proof {
                        said_yes = true;
                    }
                }
            },
            None => {},
        }
        i = i + 1;
    }
    proof {
        assert forall|k: ElementKind| #[trigger] shortfall(m, *gene, k) implies critical && amount(m, k) > 0 && said_yes by {
            lemma_kind_index_roundtrip(k, 0);
        }
        assert(may_run(m, *gene));
        assert(luck_agrees(*luck, m, *gene, true));
    }
    // Whether adding the produced elements would overflow an amount.
    let mut i: usize = 0;
    while i < ELEMENT_KIND_COUNT
        invariant
            i <= ELEMENT_KIND_COUNT,
            luck_agrees(*luck, m, *gene, true),
            elements@ == m,
            needed@ == gene.spec_needed(),
            produced@ == gene.spec_produced(),
            may_run(m, *gene),
            forall|k: ElementKind| kind_index(k) < i && #[trigger] produced@.contains_key(k) ==> amount(after_needs(m, *gene), k) + produced@[k] <= u16::MAX,
        decreases ELEMENT_KIND_COUNT - i,
    {
        let kind = ElementKind::from_index(i);
        proof {
            assert forall|k: ElementKind| #![auto] kind_index(k) == i ==> k == kind by {
                lemma_kind_index_roundtrip(k, i as int);
            }
        }
        match produced.get(kind) {
            Some(quantity) => {
                let have = elements.amount_of(kind);
                let left = match needed.get(kind) {
                    Some(q) => have.saturating_sub(q),
                    None => have,
                };
                assert(amount(after_needs(m, *gene), kind) == left);
                if left as u32 + quantity as u32 > u16::MAX as u32 {
                    assert(gene.spec_produced().contains_key(kind) && amount(after_needs(m, *gene), kind) + gene.spec_produced()[kind] > u16::MAX);
                    assert(!production_fits(m, *gene));
                    return Err(CreatureError::AmountOverflow);
                }
            },
            None => {},
        }
        i = i + 1;
    }
    proof {
        assert forall|k: ElementKind| #[trigger] produced@.contains_key(k) implies amount(after_needs(m, *gene), k) + produced@[k] <= u16::MAX by {
            lemma_kind_index_roundtrip(k, 0);
        }
    }
    // Use up the needed elements.
    let mut i: usize = 0;
    assert(subtract_upto(m, needed@, 0) =~= m);
    while i < ELEMENT_KIND_COUNT
        invariant
            i <= ELEMENT_KIND_COUNT,
            luck_agrees(*luck, m, *gene, true),
            needed@ == gene.spec_needed(),
            elements@ == subtract_upto(m, needed@, i as int),
        decreases ELEMENT_KIND_COUNT - i,
    {
        let kind = ElementKind::from_index(i);
        proof {
            assert forall|k: ElementKind| #![auto] kind_index(k) == i ==> k == kind by {
                lemma_kind_index_roundtrip(k, i as int);
            }
        }
        match needed.get(kind) {
            Some(quantity) => {
                let have = elements.amount_of(kind);
                let consumed = if quantity < have { quantity } else { have };
                elements.remove_saturating(kind, consumed);
            },
            None => {},
        }
        assert(elements@ =~= subtract_upto(m, needed@, i + 1));
        i = i + 1;
    }
    assert(elements@ == after_needs(m, *gene));
    // Add the produced elements.
    let ghost m1 = elements@;
    let mut i: usize = 0;
    assert(add_upto(m1, produced@, 0) =~= m1);
    while i < ELEMENT_KIND_COUNT
        invariant
            i <= ELEMENT_KIND_COUNT,
            luck_agrees(*luck, m, *gene, true),
            produced@ == gene.spec_produced(),
            m1 == after_needs(m, *gene),
            production_fits(m, *gene),
            elements@ == add_upto(m1, produced@, i as int),
        decreases ELEMENT_KIND_COUNT - i,
    {
        let kind = ElementKind::from_index(i);
        proof {
            assert forall|k: ElementKind| #![auto] kind_index(k) == i ==> k == kind by {
                lemma_kind_index_roundtrip(k, i as int);
            }
        }
        match produced.get(kind) {
            Some(quantity) => {
                elements.add(kind, quantity);
            },
            None => {},
        }
        assert(elements@ =~= add_upto(m1, produced@, i + 1));
        i = i + 1;
    }
    // Eject elements around the creature.
    let ghost m2 = elements@;
    let mut ejected_elements: Vec<Element> = Vec::new();
    let mut i: usize = 0;
    assert(subtract_upto(m2, ejected@, 0) =~= m2);
    while i < ELEMENT_KIND_COUNT
        invariant
            i <= ELEMENT_KIND_COUNT,
            luck_agrees(*luck, m, *gene, true),
            ejected@ == gene.spec_ejected(),
            m2 == after_production(m, *gene),
            elements@ == subtract_upto(m2, ejected@, i as int),
            ejected_elements@.len() == ejected_kinds_upto(m2, ejected@, i as int).len(),
            forall|t: int| 0 <= t < ejected_elements@.len() ==> {
                &&& (#[trigger] ejected_elements@[t]).spec_kind() == ejected_kinds_upto(m2, ejected@, i as int)[t]
                &&& is_around(ejected_elements@[t], x, y)
            },
        decreases ELEMENT_KIND_COUNT - i,
    {
        let kind = ElementKind::from_index(i);
        proof {
            assert forall|k: ElementKind| #![auto] kind_index(k) == i ==> k == kind by {
                lemma_kind_index_roundtrip(k, i as int);
            }
        }
        match ejected.get(kind) {
            Some(quantity) => {
                let have = elements.amount_of(kind);
                assert(have == amount(m2, kind));
                let ejected_quantity = if quantity < have { quantity } else { have };
                elements.remove_saturating(kind, ejected_quantity);
                let ghost before = ejected_elements@;
                let mut j: u16 = 0;
                while j < ejected_quantity
                    invariant
                        j <= ejected_quantity,
                        ejected_elements@.len() == before.len() + j,
                        forall|t: int| 0 <= t < before.len() ==> ejected_elements@[t] == before[t],
                        forall|t: int| before.len() <= t < ejected_elements@.len() ==> {
                            &&& (#[trigger] ejected_elements@[t]).spec_kind() == kind
                            &&& is_around(ejected_elements@[t], x, y)
                        },
                    decreases ejected_quantity - j,
                {
                    let (new_x, new_y) = get_around(x, y);
                    let element = Element::new(new_x, new_y, kind);
                    ejected_elements.push(element);
                    j = j + 1;
                }
                let ghost prev = ejected_kinds_upto(m2, ejected@, i as int);
                assert(ejected_kinds_upto(m2, ejected@, i + 1) =~= prev + Seq::new(ejected_quantity as nat, |t: int| kind));
                assert forall|t: int| 0 <= t < ejected_elements@.len() implies
                    (#[trigger] ejected_elements@[t]).spec_kind() == ejected_kinds_upto(m2, ejected@, i + 1)[t]
                    && is_around(ejected_elements@[t], x, y) by {
                    if t < before.len() {
                        assert(ejected_elements@[t] == before[t]);
                    }
                }
            },
            None => {
                assert(ejected_kinds_upto(m2, ejected@, i + 1) == ejected_kinds_upto(m2, ejected@, i as int));
            },
        }
        assert(elements@ =~= subtract_upto(m2, ejected@, i + 1));
        i = i + 1;
    }
    Ok(GeneResult { produced: true, ejected_elements })
}

/// A creature of size exponent `e` is smaller than 1: `SIZE_BASE_MULTIPLIER * 2^e < 1`.
pub open spec fn size_is_below_one(e: int) -> bool {
    e < 0 && SIZE_BASE_MULTIPLIER < pow2((-e) as nat)
}

/// Whether `SIZE_BASE_MULTIPLIER * 2^e < 1`.
fn size_below_one(e: i64) -> (r: bool)
    ensures
        r == size_is_below_one(e as int),
{
    if e >= 0 {
        false
    } else if e <= -30 {
        proof {
            lemma_pow2_monotone(3, (-e) as nat);
            assert(pow2(3) == 8) by {
                reveal_with_fuel(pow2, 4);
            }
        }
        true
    } else {
        proof {
            lemma_pow2_monotone((-e) as nat, 30);
            lemma_pow2_30();
        }
        (SIZE_BASE_MULTIPLIER as u32) < pow2_u32((-e) as u32)
    }
}

/// What holds of a creature that `random_creature` draws with `gene_source`: it lies
/// inside the grid; it has between `GENE_MIN` and `GENE_MAX - 1` genes, each one that
/// `gene_source` may return; its genes can be read at every repetition index; and it
/// holds between `ELEMENTS_MIN` and `ELEMENTS_MAX - 1` elements, plus the initial
/// amount of the fundamental element, so at least that amount of it.
pub open spec fn drawn_with<G: Fn() -> Gene>(c: Creature, gene_source: G) -> bool {
    &&& in_grid(c.spec_x(), c.spec_y())
    &&& GENE_MIN <= c.spec_genes().len() < GENE_MAX
    &&& forall|i: int| 0 <= i < c.spec_genes().len() ==> call_ensures(gene_source, (), #[trigger] c.spec_genes()[i])
    &&& repetitions_fit(c.spec_genes())
    &&& exists|m: Map<ElementKind, u16>| {
        &&& ELEMENTS_MIN <= #[trigger] total(m) < ELEMENTS_MAX
        &&& entries_positive(m)
        &&& c.spec_elements() == with_initial_fundamental(m)
    }
    &&& amount(c.spec_elements(), FUNDAMENTAL_ELEMENT) >= FUNDAMENTAL_ELEMENT_INITIAL_AMOUNT
}

/// A creature at a random cell of the grid, with between `GENE_MIN` and `GENE_MAX - 1`
/// genes, each taken from `gene_source`, and between `ELEMENTS_MIN` and
/// `ELEMENTS_MAX - 1` elements of random kinds, plus the initial fundamental amount.
pub fn random_creature<G: Fn() -> Gene>(gene_source: &G) -> (r: Creature)
    requires
        call_requires(*gene_source, ()),
    ensures
        drawn_with(r, *gene_source),
{
    let x = random_u16(0, GRID_WIDTH);
    let y = random_u16(0, GRID_HEIGHT);
    let gene_count = random_u16(GENE_MIN, GENE_MAX);
    let mut genes: Vec<Gene> = Vec::new();
    let mut i: u16 = 0;
    while i < gene_count
        invariant
            i <= gene_count,
            genes@.len() == i,
            call_requires(*gene_source, ()),
            forall|j: int| 0 <= j < i ==> call_ensures(*gene_source, (), #[trigger] genes@[j]),
        decreases gene_count - i,
    {
        genes.push(gene_source());
        i = i + 1;
    }
    let element_count = random_u16(ELEMENTS_MIN, ELEMENTS_MAX);
    let elements = ElementMap::random_with_total(element_count);
    proof {
        lemma_total_le(elements@, FUNDAMENTAL_ELEMENT, 10);
        lemma_kind_index_roundtrip(FUNDAMENTAL_ELEMENT, 0);
    }
    Creature::new(x, y, genes, elements)
}

/// Whether every element lies inside the grid.
pub fn all_elements_in_grid(elements: &Vec<Element>) -> (r: bool)
    ensures
        r == all_in_grid(elements@),
{
    let mut i: usize = 0;
    while i < elements.len()
        invariant
            i <= elements@.len(),
            forall|j: int| 0 <= j < i ==> in_grid(#[trigger] elements@[j].spec_x(), elements@[j].spec_y()),
        decreases elements@.len() - i,
    {
        let e = &elements[i];
        if !(*e.get_x() < GRID_WIDTH && *e.get_y() < GRID_HEIGHT) {
            return false;
        }
        i = i + 1;
    }
    true
}

impl Creature {
    /// Whether the creature meets what a step asks of it: its gene count fits in 32
    /// bits.
    pub fn is_ready(&self) -> (r: bool)
        ensures
            r == (self.spec_genes().len() <= u32::MAX),
    {
        self.genes.len() <= 0xffff_ffff
    }
}

/// What holds of every creature born during a step of `parent`.
pub open spec fn offspring_of(child: Creature, parent: Creature) -> bool {
    &&& same_genes(child.spec_genes(), parent.spec_genes())
    &&& child.spec_genome_hash() == parent.spec_genome_hash()
    &&& child.spec_color() == parent.spec_color()
    &&& exists|d: int| 0 <= d < DIRECTION_COUNT && (child.spec_x(), child.spec_y()) == #[trigger] neighbour_spec(parent.spec_x(), parent.spec_y(), d)
}

impl Creature {
    /// The end of a step, once the genes have run: `produced` holds the recorded
    /// repetition indices and `critical` those recorded by critical genes. The creature
    /// dies if its size is below 1; else it heads for the target of a random recorded
    /// index (of `critical`, if any) and takes in the elements at its new cell.
    /// `fits` stands for the caller's knowledge that the amounts leave room for every
    /// element of the grid.
    fn finish_step<M: Fn(MoveRequest) -> (i32, i32)>(
        &mut self,
        result: CreatureResult,
        produced: &Vec<usize>,
        critical: &Vec<usize>,
        elements: &Vec<Element>,
        mover: &M,
        Ghost(fits): Ghost<bool>,
    ) -> (r: Result<CreatureResult, CreatureError>)
        requires
            old(self).spec_genes().len() <= u32::MAX,
            produced@.len() <= 2 * old(self).spec_genes().len(),
            critical@.len() <= 2 * old(self).spec_genes().len(),
            forall|j: int| 0 <= j < critical@.len() ==> produced@.contains(#[trigger] critical@[j]),
            result.alive,
            result.consumed_element_indices@.len() == 0,
            forall|q: MoveRequest| call_requires(*mover, (q,)),
            fits ==> forall|k: ElementKind| amount(old(self).spec_elements(), k) + #[trigger] count_kind(elements@, k, elements@.len() as int) <= u16::MAX,
        ensures
            final(self).spec_genes() == old(self).spec_genes(),
            final(self).spec_genome_hash() == old(self).spec_genome_hash(),
            final(self).spec_color() == old(self).spec_color(),
            in_grid(old(self).spec_x(), old(self).spec_y()) ==> in_grid(final(self).spec_x(), final(self).spec_y()),
            fits && indices_in_range(old(self).spec_genes(), produced@) ==> r is Ok,
            !indices_in_range(old(self).spec_genes(), produced@) <==> r == Err::<CreatureResult, CreatureError>(CreatureError::MissingGene),
            r matches Ok(res) ==> {
                &&& indices_in_range(old(self).spec_genes(), produced@)
                &&& res.offsprings@ == result.offsprings@
                &&& res.ejected_elements@ == result.ejected_elements@
                &&& res.alive == !size_is_below_one(exponent_sum(old(self).spec_genes(), produced@, 0))
                &&& !res.alive ==> {
                    &&& final(self).spec_elements() == old(self).spec_elements()
                    &&& final(self).spec_x() == old(self).spec_x()
                    &&& final(self).spec_y() == old(self).spec_y()
                    &&& res.consumed_element_indices@.len() == 0
                }
                &&& res.alive ==> {
                    &&& res.consumed_element_indices@ == indices_at(elements@, final(self).spec_x(), final(self).spec_y(), elements@.len() as int)
                    &&& final(self).spec_elements() == after_consuming(old(self).spec_elements(), elements@, final(self).spec_x(), final(self).spec_y(), elements@.len() as int)
                }
                &&& res.alive ==> heads_for(old(self).spec_x(), old(self).spec_y(), elements@, old(self).spec_genes(), produced@, critical@, *mover, final(self).spec_x(), final(self).spec_y())
            },
            r == Err::<CreatureResult, CreatureError>(CreatureError::AmountOverflow) ==> {
                &&& indices_in_range(old(self).spec_genes(), produced@)
                &&& !size_is_below_one(exponent_sum(old(self).spec_genes(), produced@, 0))
                &&& heads_for(old(self).spec_x(), old(self).spec_y(), elements@, old(self).spec_genes(), produced@, critical@, *mover, final(self).spec_x(), final(self).spec_y())
                &&& !consumption_fits(old(self).spec_elements(), elements@, final(self).spec_x(), final(self).spec_y())
            },
    {
        proof {
            use_type_invariant(&*self);
        }
        let mut result = result;
        // Size, speed and sense are powers of two scaled by their base multipliers;
        // their exponents add up over the recorded repetition indices.
        let mut size_exponent: i64 = 0;
        let mut speed_exponent: i64 = 0;
        let mut sense_exponent: i64 = 0;
        let mut t: usize = 0;
        while t < produced.len()
            invariant
                t <= produced@.len(),
                produced@.len() <= 2 * self.genes@.len(),
                self.genes@.len() <= u32::MAX,
                forall|j: int| 0 <= j < t ==> #[trigger] produced@[j] < self.genes@.len(),
                -32768 * t <= size_exponent <= 32767 * t,
                -32768 * t <= speed_exponent <= 32767 * t,
                -32768 * t <= sense_exponent <= 32767 * t,
                size_exponent == exponent_sum(self.genes@, produced@.take(t as int), 0),
                speed_exponent == exponent_sum(self.genes@, produced@.take(t as int), 1),
                sense_exponent == exponent_sum(self.genes@, produced@.take(t as int), 2),
            decreases produced@.len() - t,
        {
            if produced[t] >= self.genes.len() {
                return Err(CreatureError::MissingGene);
            }
            let gene = &self.genes[produced[t]];
            assert(produced@.take(t + 1).drop_last() =~= produced@.take(t as int));
            size_exponent = size_exponent + gene.get_size_multiplier_exponent() as i64;
            speed_exponent = speed_exponent + gene.get_speed_multiplier_exponent() as i64;
            sense_exponent = sense_exponent + gene.get_sense_multiplier_exponent() as i64;
            t = t + 1;
        }
        assert(produced@.take(produced@.len() as int) =~= produced@);
        if size_below_one(size_exponent) {
            result.alive = false;
            return Ok(result);
        }
        let ghost targets = step_targets(produced@, critical@);
        let ghost mut pick_spec: int = 0;
        let target_element: Option<ElementKind> = if critical.len() == 0 {
            if produced.len() == 0 {
                None
            } else {
                let pick = random_index(produced.len());
                proof {
                    pick_spec = pick as int;
                }
                Some(self.genes[produced[pick]].get_target_element())
            }
        } else {
            let pick = random_index(critical.len());
            proof {
                pick_spec = pick as int;
            }
            Some(self.genes[critical[pick]].get_target_element())
        };
        match target_element {
            Some(target) => {
                let (move_x, move_y) = self.compute_move(target, speed_exponent, sense_exponent, elements, mover);
                let old_x = self.x;
                let old_y = self.y;
                let new_x = saturating_add_signed(old_x, #[verifier::truncate] (move_x as i16));
                let new_y = saturating_add_signed(old_y, #[verifier::truncate] (move_y as i16));
                self.x = if new_x < GRID_WIDTH { new_x } else { GRID_WIDTH - 1 };
                self.y = if new_y < GRID_HEIGHT { new_y } else { GRID_HEIGHT - 1 };
                assert(0 <= pick_spec < targets.len());
                assert(target == self.genes@[targets[pick_spec] as int].spec_target());
                assert(self.x == moved(old_x, move_x, GRID_WIDTH));
                assert(self.y == moved(old_y, move_y, GRID_HEIGHT));
                assert(moved_towards(old_x, old_y, elements@, self.genes@[targets[pick_spec] as int].spec_target(), exponent_sum(self.genes@, produced@, 1), exponent_sum(self.genes@, produced@, 2), *mover, self.x, self.y));
            },
            None => {},
        }
        proof {
            if fits {
                assert forall|k: ElementKind| amount(self.elements@, k) + #[trigger] count_at(elements@, self.x, self.y, k, elements@.len() as int) <= u16::MAX by {
                    lemma_count_at_le_count_kind(elements@, self.x, self.y, k, elements@.len() as int);
                }
            }
        }
        let consumed_indices = match self.consume_elements(elements) {
            Ok(v) => v,
            Err(_) => {
                return Err(CreatureError::AmountOverflow);
            },
        };
        result.consumed_element_indices = consumed_indices;
        Ok(result)
    }
}

impl Creature {
    /// One step of the creature at time `tick`, among the elements of the grid.
    ///
    /// The creature burns one fundamental element and dies when it has none left. Then
    /// each gene of non-negative frequency exponent `f` runs `2^f` times (a gene of
    /// negative exponent does not run): a run that fails kills the creature if the gene
    /// is critical; a run that succeeds records its repetition index, adds its ejected
    /// elements to the result, and gives birth next to the creature when the gene
    /// reproduces. The genes at the recorded indices give the size, speed and sense
    /// exponents; a creature of size below 1 dies. The target is the element of the
    /// gene at a random recorded index (among those of critical genes, if any); the
    /// creature moves towards the nearest element of that kind, as `mover` computes it,
    /// and finally takes in the elements at its new cell.
    ///
    /// `luck` is asked for the coin flips of critical genes (see `produce_gene`).
    /// An `Err` is returned where an amount of elements would overflow
    /// (`AmountOverflow`), or where, once the runs are done, a recorded repetition index
    /// is past the last gene (`MissingGene`).
    ///
    /// Whatever `luck` and `mover` answer, the result is the one that the step model
    /// gives for some outcomes of the runs: `step_matches` for a result,
    /// `step_overflows` and `step_misses_gene` for the errors.
    pub fn produce<L: Fn() -> bool, M: Fn(MoveRequest) -> (i32, i32)>(
        &mut self,
        tick: u128,
        elements: &Vec<Element>,
        luck: &L,
        mover: &M,
    ) -> (r: Result<CreatureResult, CreatureError>)
        requires
            can_step(*old(self), elements@),
            call_requires(*luck, ()),
            forall|q: MoveRequest| call_requires(*mover, (q,)),
        ensures
            final(self).spec_genes() == old(self).spec_genes(),
            final(self).spec_genome_hash() == old(self).spec_genome_hash(),
            final(self).spec_color() == old(self).spec_color(),
            in_grid(old(self).spec_x(), old(self).spec_y()) ==> in_grid(final(self).spec_x(), final(self).spec_y()),
            can_step(*final(self), elements@),
            growth_fits(*old(self), elements@) && repetitions_fit(old(self).spec_genes()) ==> r is Ok,
            amount(old(self).spec_elements(), FUNDAMENTAL_ELEMENT) <= FUNDAMENTAL_ELEMENT_CONSUMPTION_AMOUNT ==> {
                &&& r matches Ok(res)
                &&& !res.alive
                &&& res.offsprings@.len() == 0
                &&& res.consumed_element_indices@.len() == 0
                &&& res.ejected_elements@.len() == 0
                &&& final(self).spec_elements() == old(self).spec_elements().insert(FUNDAMENTAL_ELEMENT, 0)
                &&& final(self).spec_x() == old(self).spec_x()
                &&& final(self).spec_y() == old(self).spec_y()
            },
            r matches Ok(res) ==> {
                &&& forall|t: int| 0 <= t < res.offsprings@.len() ==> offspring_of(#[trigger] res.offsprings@[t], *old(self))
                &&& forall|t: int| 0 <= t < res.ejected_elements@.len() ==> is_around(#[trigger] res.ejected_elements@[t], old(self).spec_x(), old(self).spec_y())
                &&& res.alive ==> res.consumed_element_indices@ == indices_at(elements@, final(self).spec_x(), final(self).spec_y(), elements@.len() as int)
                &&& !res.alive ==> res.consumed_element_indices@.len() == 0
                &&& amount(old(self).spec_elements(), FUNDAMENTAL_ELEMENT) > FUNDAMENTAL_ELEMENT_CONSUMPTION_AMOUNT ==>
                    exists|outcomes: Seq<bool>| #[trigger] step_matches(*old(self), *final(self), res, elements@, *luck, *mover, outcomes)
            },
            r is Err ==> amount(old(self).spec_elements(), FUNDAMENTAL_ELEMENT) > FUNDAMENTAL_ELEMENT_CONSUMPTION_AMOUNT,
            r == Err::<CreatureResult, CreatureError>(CreatureError::AmountOverflow) ==>
                exists|outcomes: Seq<bool>| #[trigger] step_overflows(*old(self), elements@, *luck, *mover, outcomes),
            r == Err::<CreatureResult, CreatureError>(CreatureError::MissingGene) ==>
                exists|outcomes: Seq<bool>| #[trigger] step_misses_gene(*old(self), *luck, outcomes),
    {
        proof {
            use_type_invariant(&*self);
        }
        let ghost x0 = self.x;
        let ghost y0 = self.y;
        let ghost G = self.genes@;
        let mut result = CreatureResult::new();
        self.remove_elements(FUNDAMENTAL_ELEMENT, FUNDAMENTAL_ELEMENT_CONSUMPTION_AMOUNT);
        if self.elements.amount_of(FUNDAMENTAL_ELEMENT) == 0 {
            result.alive = false;
            return Ok(result);
        }
        let ghost m1 = self.elements@;
        assert(m1 == after_burning(old(self).spec_elements()));
        let ghost mut trace: Seq<bool> = Seq::empty();
        let mut produced_gene_indices: Vec<usize> = Vec::new();
        let mut critical_produced_gene_indices: Vec<usize> = Vec::new();
        let genes = clone_genes(&self.genes);
        proof {
            assert forall|j: int| 0 <= j < genes@.len() implies (#[trigger] genes@[j]).spec_frequency_exponent() == old(self).spec_genes()[j].spec_frequency_exponent() by {
                assert(genes@[j].same_as(&old(self).spec_genes()[j]));
            }
            if growth_fits(*old(self), elements@) {
                assert forall|k: ElementKind| amount(self.elements@, k) + (gain_upto(old(self).spec_genes(), k, old(self).spec_genes().len() as int) - gain_upto(old(self).spec_genes(), k, 0)) + count_kind(elements@, k, elements@.len() as int) <= u16::MAX by {
                    assert(amount(self.elements@, k) <= amount(old(self).spec_elements(), k));
                    assert(amount(old(self).spec_elements(), k) + gain_upto(old(self).spec_genes(), k, old(self).spec_genes().len() as int) + count_kind(elements@, k, elements@.len() as int) <= u16::MAX);
                }
            }
            assert(replay(m1, G, trace, 0) == (self.elements@, true, produced_gene_indices@, critical_produced_gene_indices@, amounts_of(result.offsprings@), kinds_of(result.ejected_elements@)));
        }
        let mut g: usize = 0;
        while g < genes.len()
            invariant
                g <= genes@.len(),
                G == old(self).spec_genes(),
                same_genes(genes@, G),
                self.x == x0 && self.y == y0,
                x0 == old(self).spec_x() && y0 == old(self).spec_y(),
                old(self).spec_genome_hash() == genome_hash_of(old(self).spec_genes()),
                old(self).spec_color() == genome_color(old(self).spec_genome_hash()),
                amount(old(self).spec_elements(), FUNDAMENTAL_ELEMENT) > FUNDAMENTAL_ELEMENT_CONSUMPTION_AMOUNT,
                self.genes@ == G,
                self.genome_hash == old(self).spec_genome_hash(),
                self.color == old(self).spec_color(),
                can_step(*old(self), elements@),
                result.alive,
                result.consumed_element_indices@.len() == 0,
                call_requires(*luck, ()),
                forall|t: int| 0 <= t < result.offsprings@.len() ==> offspring_of(#[trigger] result.offsprings@[t], *old(self)),
                forall|t: int| 0 <= t < result.ejected_elements@.len() ==> is_around(#[trigger] result.ejected_elements@[t], x0, y0),
                repetitions_fit(G) ==> indices_in_range(G, produced_gene_indices@),
                forall|t: int| 0 <= t < critical_produced_gene_indices@.len() ==> produced_gene_indices@.contains(#[trigger] critical_produced_gene_indices@[t]),
                produced_gene_indices@.len() <= 2 * g,
                critical_produced_gene_indices@.len() <= 2 * g,
                growth_fits(*old(self), elements@) ==> forall|k: ElementKind| amount(self.elements@, k) + (gain_upto(G, k, G.len() as int) - gain_upto(G, k, g as int)) + count_kind(elements@, k, elements@.len() as int) <= u16::MAX,
                m1 == after_burning(old(self).spec_elements()),
                trace.len() == runs_upto(G, g as int).len(),
                replay(m1, G, trace, trace.len() as int) == (self.elements@, true, produced_gene_indices@, critical_produced_gene_indices@, amounts_of(result.offsprings@), kinds_of(result.ejected_elements@)),
                trace_consistent(m1, G, trace, trace.len() as int, *luck),
            decreases genes@.len() - g,
        {
            let gene = &genes[g];
            let f = gene.get_frequency_exponent();
            assert(genes@[g as int].same_as(&G[g as int]));
            assert(G[g as int].spec_frequency_exponent() == f);
            assert(G[g as int].spec_produced() == gene.spec_produced());
            proof {
                if f < 0 {
                    lemma_pow2_monotone(0, (-f) as nat);
                    lemma_runs_skip(G, g as int);
                    assert forall|k: ElementKind| #[trigger] gain_upto(G, k, g + 1) == gain_upto(G, k, g as int) by {
                        assert(repetitions(G[g as int]) == 0);
                    }
                } else {
                    assert forall|k: ElementKind| #[trigger] gain_upto(G, k, g + 1) == gain_upto(G, k, g as int) + pow2(f as nat) * amount(gene.spec_produced(), k) by {
                        assert(repetitions(G[g as int]) == pow2(f as nat));
                    }
                }
                reveal_with_fuel(pow2, 2);
            }
            if f < 0 && tick % pow2_u32((-f) as u32) as u128 != 0 {
                g = g + 1;
                continue;
            } else if f >= 0 {
                let repetitions: usize = pow2_usize(f as u32);
                proof {
                    if repetitions_fit(G) && f >= 1 {
                        assert(G[g as int].spec_frequency_exponent() >= 1);
                    }
                }
                let mut i: usize = 0;
                while i < repetitions
                    invariant
                        g < genes@.len(),
                        *gene == genes@[g as int],
                        gene.same_as(&G[g as int]),
                        gene.spec_frequency_exponent() == f,
                        0 <= f <= 1,
                        repetitions == pow2(f as nat),
                        repetitions == (if f == 0 { 1usize } else { 2usize }),
                        i <= repetitions,
                        repetitions_fit(G) ==> repetitions <= genes@.len(),
                        G == old(self).spec_genes(),
                        same_genes(genes@, G),
                        self.x == x0 && self.y == y0,
                        x0 == old(self).spec_x() && y0 == old(self).spec_y(),
                        old(self).spec_genome_hash() == genome_hash_of(old(self).spec_genes()),
                        old(self).spec_color() == genome_color(old(self).spec_genome_hash()),
                        amount(old(self).spec_elements(), FUNDAMENTAL_ELEMENT) > FUNDAMENTAL_ELEMENT_CONSUMPTION_AMOUNT,
                        self.genes@ == G,
                        self.genome_hash == old(self).spec_genome_hash(),
                        self.color == old(self).spec_color(),
                        can_step(*old(self), elements@),
                        result.alive,
                        result.consumed_element_indices@.len() == 0,
                        call_requires(*luck, ()),
                        forall|t: int| 0 <= t < result.offsprings@.len() ==> offspring_of(#[trigger] result.offsprings@[t], *old(self)),
                        forall|t: int| 0 <= t < result.ejected_elements@.len() ==> is_around(#[trigger] result.ejected_elements@[t], x0, y0),
                        repetitions_fit(G) ==> indices_in_range(G, produced_gene_indices@),
                        forall|t: int| 0 <= t < critical_produced_gene_indices@.len() ==> produced_gene_indices@.contains(#[trigger] critical_produced_gene_indices@[t]),
                        produced_gene_indices@.len() <= 2 * g + i,
                        critical_produced_gene_indices@.len() <= 2 * g + i,
                        growth_fits(*old(self), elements@) ==> forall|k: ElementKind| amount(self.elements@, k) + (repetitions - i) * amount(gene.spec_produced(), k) + (gain_upto(G, k, G.len() as int) - gain_upto(G, k, g + 1)) + count_kind(elements@, k, elements@.len() as int) <= u16::MAX,
                        m1 == after_burning(old(self).spec_elements()),
                        trace.len() == runs_upto(G, g as int).len() + i,
                        replay(m1, G, trace, trace.len() as int) == (self.elements@, true, produced_gene_indices@, critical_produced_gene_indices@, amounts_of(result.offsprings@), kinds_of(result.ejected_elements@)),
                        trace_consistent(m1, G, trace, trace.len() as int, *luck),
                    decreases repetitions - i,
                {
                    proof {
                        if growth_fits(*old(self), elements@) {
                            assert forall|k: ElementKind| amount(self.elements@, k) + #[trigger] amount(gene.spec_produced(), k) <= u16::MAX by {
                                lemma_gain_monotone(G, k, g + 1, G.len() as int);
                                lemma_count_kind_nonneg(elements@, k, elements@.len() as int);
                                assert((repetitions - i) * amount(gene.spec_produced(), k) >= amount(gene.spec_produced(), k)) by (nonlinear_arith)
                                    requires
                                        repetitions - i >= 1,
                                ;
                            }
                            lemma_production_fits(self.elements@, *gene);
                        }
                        lemma_runs_index(G, g as int, i as int);
                    }
                    let ghost before_run = self.elements@;
                    let gene_result = match self.produce_gene(gene, luck) {
                        Ok(gene_result) => gene_result,
                        Err(_) => {
                            proof {
                                lemma_same_gene_run(before_run, *gene, G[g as int]);
                                let st_now = replay(m1, G, trace, trace.len() as int);
                                lemma_step_overflows_intro(*old(self), elements@, *luck, *mover, trace, st_now, 0, 0);
                            }
                            return Err(CreatureError::AmountOverflow);
                        },
                    };
                    proof {
                        lemma_same_gene_run(before_run, *gene, G[g as int]);
                        if growth_fits(*old(self), elements@) && gene_result.produced {
                            assert forall|k: ElementKind| amount(self.elements@, k) <= amount(before_run, k) + #[trigger] amount(gene.spec_produced(), k) by {
                                lemma_after_gene_le(before_run, *gene, k);
                            }
                        }
                        let t = trace.len() as int;
                        let b = gene_result.produced;
                        let t2 = trace.push(b);
                        assert(runs(G)[t] == (g as int, i as int));
                        assert(forall|k: ElementKind| !shortfall(before_run, G[g as int], k) ==> !shortfall(before_run, *gene, k));
                        if !b {
                            let k0 = choose|k: ElementKind| shortfall(before_run, *gene, k);
                            assert(shortfall(before_run, G[g as int], k0));
                        }
                        lemma_trace_extend(m1, G, trace, b, before_run, G[g as int], *luck);
                        assert(t2[t] == b);
                        assert(replay(m1, G, t2, t) == replay(m1, G, trace, t));
                        trace = t2;
                    }
                    let ghost after_run = self.elements@;
                    if gene_result.produced {
                        let mut ejected = gene_result.ejected_elements;
                        let ghost before = result.ejected_elements@;
                        result.ejected_elements.append(&mut ejected);
                        assert forall|t: int| 0 <= t < result.ejected_elements@.len() implies is_around(#[trigger] result.ejected_elements@[t], x0, y0) by {
                            if t < before.len() {
                                assert(result.ejected_elements@[t] == before[t]);
                            } else {
                                assert(result.ejected_elements@[t] == gene_result.ejected_elements@[t - before.len()]);
                            }
                        }
                        assert(kinds_of(result.ejected_elements@) =~= kinds_of(before) + ejected_kinds(before_run, G[g as int])) by {
                            assert forall|t: int| 0 <= t < result.ejected_elements@.len() implies #[trigger] kinds_of(result.ejected_elements@)[t] == (kinds_of(before) + ejected_kinds(before_run, G[g as int]))[t] by {
                                if t < before.len() {
                                    assert(result.ejected_elements@[t] == before[t]);
                                } else {
                                    assert(result.ejected_elements@[t] == gene_result.ejected_elements@[t - before.len()]);
                                }
                            }
                        }
                        let ghost prod_before = produced_gene_indices@;
                        produced_gene_indices.push(i);
                        proof {
                            assert forall|t: int| 0 <= t < critical_produced_gene_indices@.len() implies produced_gene_indices@.contains(#[trigger] critical_produced_gene_indices@[t]) by {
                                let u = choose|u: int| 0 <= u < prod_before.len() && prod_before[u] == critical_produced_gene_indices@[t];
                                assert(produced_gene_indices@[u] == critical_produced_gene_indices@[t]);
                            }
                            assert(produced_gene_indices@[produced_gene_indices@.len() - 1] == i);
                        }
                        if gene.is_critical() {
                            critical_produced_gene_indices.push(i);
                        }
                        if gene.will_reproduce() {
                            let (new_x, new_y) = get_around(self.x, self.y);
                            let new_creature = self.reproduce(new_x, new_y);
                            proof {
                                lemma_same_genes_same_hash(new_creature.spec_genes(), old(self).spec_genes());
                            }
                            let ghost offs_before = result.offsprings@;
                            result.offsprings.push(new_creature);
                            assert(amounts_of(result.offsprings@) =~= amounts_of(offs_before).push(
                                with_initial_fundamental(halved(after_gene(before_run, G[g as int]))),
                            ));
                        }
                    } else {
                        if gene.is_critical() {
                            result.alive = false;
                            proof {
                                assert(G[g as int].spec_critical());
                                assert(!replay(m1, G, trace, trace.len() as int).1);
                                let full = lemma_pad_after_death(m1, G, trace, *luck);
                                let st_full = replay(m1, G, full, runs(G).len() as int);
                                assert(st_full.0 == self.elements@);
                                lemma_step_matches_intro(*old(self), *self, result, elements@, *luck, *mover, full, st_full);
                            }
                            return Ok(result);
                        }
                    }
                    proof {
                        if growth_fits(*old(self), elements@) {
                            assert forall|k: ElementKind| amount(self.elements@, k) + (repetitions - (i + 1)) * amount(gene.spec_produced(), k) + (gain_upto(G, k, G.len() as int) - gain_upto(G, k, g + 1)) + count_kind(elements@, k, elements@.len() as int) <= u16::MAX by {
                                assert(amount(self.elements@, k) <= amount(after_run, k));
                                assert(amount(after_run, k) <= amount(before_run, k) + amount(gene.spec_produced(), k));
                                assert((repetitions - i) * amount(gene.spec_produced(), k) == (repetitions - (i + 1)) * amount(gene.spec_produced(), k) + amount(gene.spec_produced(), k)) by (nonlinear_arith);
                            }
                        }
                    }
                    i = i + 1;
                }
            }
            g = g + 1;
        }
        let ghost st = replay(m1, G, trace, trace.len() as int);
        assert(trace.len() == runs(G).len());
        let ghost fits = growth_fits(*old(self), elements@);
        proof {
            if fits {
                assert forall|k: ElementKind| amount(self.elements@, k) + #[trigger] count_kind(elements@, k, elements@.len() as int) <= u16::MAX by {
                    assert(amount(self.elements@, k) + (gain_upto(G, k, G.len() as int) - gain_upto(G, k, G.len() as int)) + count_kind(elements@, k, elements@.len() as int) <= u16::MAX);
                }
            }
        }
        let r = self.finish_step(result, &produced_gene_indices, &critical_produced_gene_indices, elements, mover, Ghost(fits));
        proof {
            if r is Ok {
                lemma_step_matches_intro(*old(self), *self, r->Ok_0, elements@, *luck, *mover, trace, st);
            } else if r == Err::<CreatureResult, CreatureError>(CreatureError::MissingGene) {
                lemma_step_misses_gene_intro(*old(self), *luck, trace, st);
            } else {
                assert(r is Err);
                assert(r->Err_0 !is MissingGene);
                assert(r == Err::<CreatureResult, CreatureError>(CreatureError::AmountOverflow));
                lemma_step_overflows_intro(*old(self), elements@, *luck, *mover, trace, st, self.x, self.y);
            }
        }
        r
    }
}

/// Genes holding the same data run the same way.
pub proof fn lemma_same_gene_run(m: Map<ElementKind, u16>, a: Gene, b: Gene)
    requires
        a.same_as(&b),
    ensures
        forall|k: ElementKind| shortfall(m, a, k) == shortfall(m, b, k),
        may_run(m, a) == may_run(m, b),
        production_fits(m, a) == production_fits(m, b),
        after_gene(m, a) == after_gene(m, b),
        ejected_kinds(m, a) == ejected_kinds(m, b),
{
    assert(after_needs(m, a) == after_needs(m, b));
    assert(after_production(m, a) == after_production(m, b));
    assert forall|k: ElementKind| shortfall(m, a, k) == shortfall(m, b, k) by {}
    if may_run(m, a) {
        assert forall|k: ElementKind| #[trigger] shortfall(m, b, k) implies b.spec_critical() && amount(m, k) > 0 by {
            assert(shortfall(m, a, k));
        }
    }
    if may_run(m, b) {
        assert forall|k: ElementKind| #[trigger] shortfall(m, a, k) implies a.spec_critical() && amount(m, k) > 0 by {
            assert(shortfall(m, b, k));
        }
    }
}

/// The gains of more genes are no smaller.
proof fn lemma_gain_monotone(genes: Seq<Gene>, kind: ElementKind, i: int, n: int)
    requires
        0 <= i <= n <= genes.len(),
    ensures
        gain_upto(genes, kind, i) <= gain_upto(genes, kind, n),
        gain_upto(genes, kind, i) >= 0,
    decreases n,
{
    if n > 0 {
        if i < n {
            lemma_gain_monotone(genes, kind, i, n - 1);
        } else {
            lemma_gain_monotone(genes, kind, n - 1, n - 1);
        }
        let r = repetitions(genes[n - 1]);
        let a = amount(genes[n - 1].spec_produced(), kind) as int;
        assert(r >= 0);
        assert(r * a >= 0) by (nonlinear_arith)
            requires
                r >= 0,
                a >= 0,
        ;
    }
}

/// A count is never negative.
proof fn lemma_count_kind_nonneg(els: Seq<Element>, kind: ElementKind, n: int)
    ensures
        count_kind(els, kind, n) >= 0,
    decreases n,
{
    if n > 0 {
        lemma_count_kind_nonneg(els, kind, n - 1);
    }
}

/// Only elements of the kind at the cell count among those of the kind.
proof fn lemma_count_at_le_count_kind(els: Seq<Element>, x: u16, y: u16, kind: ElementKind, n: int)
    requires
        0 <= n <= els.len(),
    ensures
        count_at(els, x, y, kind, n) <= count_kind(els, kind, n),
    decreases n,
{
    if n > 0 {
        lemma_count_at_le_count_kind(els, x, y, kind, n - 1);
    }
}

/// Taking elements away never raises an amount.
proof fn lemma_subtract_le(m: Map<ElementKind, u16>, sub: Map<ElementKind, u16>, kind: ElementKind)
    ensures
        amount(subtract(m, sub), kind) <= amount(m, kind),
{
}

/// A run of a gene raises an amount by at most what the gene produces of it.
proof fn lemma_after_gene_le(m: Map<ElementKind, u16>, gene: Gene, kind: ElementKind)
    requires
        production_fits(m, gene),
    ensures
        amount(after_gene(m, gene), kind) <= amount(m, kind) + amount(gene.spec_produced(), kind),
{
    lemma_kind_index_roundtrip(kind, 0);
    lemma_subtract_le(m, gene.spec_needed(), kind);
    lemma_subtract_le(after_production(m, gene), gene.spec_ejected(), kind);
    if gene.spec_produced().contains_key(kind) {
        assert(amount(after_needs(m, gene), kind) + gene.spec_produced()[kind] <= u16::MAX);
    }
}

/// Where every amount plus what a gene produces of it fits, the gene's production fits.
proof fn lemma_production_fits(m: Map<ElementKind, u16>, gene: Gene)
    requires
        forall|k: ElementKind| amount(m, k) + #[trigger] amount(gene.spec_produced(), k) <= u16::MAX,
    ensures
        production_fits(m, gene),
{
    assert forall|k: ElementKind| #[trigger] gene.spec_produced().contains_key(k) implies amount(after_needs(m, gene), k) + gene.spec_produced()[k] <= u16::MAX by {
        lemma_subtract_le(m, gene.spec_needed(), k);
        assert(amount(m, k) + amount(gene.spec_produced(), k) <= u16::MAX);
    }
}

/// `2^e`.
pub open spec fn pow2(e: nat) -> nat
    decreases e,
{
    if e == 0 {
        1
    } else {
        2 * pow2((e - 1) as nat)
    }
}

/// `2^e` as a `u32`.
fn pow2_u32(e: u32) -> (r: u32)
    requires
        e < 31,
    ensures
        r == pow2(e as nat),
{
    let mut r: u32 = 1;
    let mut i: u32 = 0;
    while i < e
        invariant
            i <= e < 31,
            r == pow2(i as nat),
        decreases e - i,
    {
        proof {
            lemma_pow2_monotone(i as nat, 30);
            lemma_pow2_30();
        }
        r = r * 2;
        i = i + 1;
    }
    r
}

/// `2^30` is `0x4000_0000`.
proof fn lemma_pow2_30()
    ensures
        pow2(30) == 0x4000_0000,
{
    reveal_with_fuel(pow2, 31);
}

/// `2^e` grows with `e`.
proof fn lemma_pow2_monotone(m: nat, n: nat)
    requires
        m <= n,
    ensures
        1 <= pow2(m) <= pow2(n),
    decreases n,
{
    if m < n {
        lemma_pow2_monotone(m, (n - 1) as nat);
    } else if n > 0 {
        lemma_pow2_monotone((n - 1) as nat, (n - 1) as nat);
    }
}

/// `2^e` as a `usize`.
fn pow2_usize(e: u32) -> (r: usize)
    requires
        e < 31,
    ensures
        r == pow2(e as nat),
{
    pow2_u32(e) as usize
}



/// The squared distance from `(x, y)` to an element.
pub open spec fn dist_sq(e: Element, x: u16, y: u16) -> int {
    (e.spec_x() - x) * (e.spec_x() - x) + (e.spec_y() - y) * (e.spec_y() - y)
}

/// `4^n` is the square of `2^n`.
proof fn lemma_pow4_is_square(n: nat)
    ensures
        pow4(n) == pow2(n) * pow2(n),
    decreases n,
{
    if n > 0 {
        lemma_pow4_is_square((n - 1) as nat);
        let p = pow2((n - 1) as nat);
        assert(pow2(n) == 2 * p);
        assert(pow4(n) == 4 * pow4((n - 1) as nat));
        assert((2 * p) * (2 * p) == 4 * (p * p)) by (nonlinear_arith);
        assert(pow2(n) * pow2(n) == (2 * p) * (2 * p));
    } else {
        assert(pow4(0) == 1 && pow2(0) == 1);
    }
}

/// The sensing radius for exponent `t` is `SENSE_BASE_MULTIPLIER * 2^t`: a squared
/// distance `d` is within it exactly when `d` is below the square of that radius
/// (for `t < 0`, when `d * (2^-t)^2` is below `SENSE_BASE_MULTIPLIER^2`).
pub proof fn lemma_within_sense_radius(d: int, t: int)
    ensures
        t >= 0 ==> (within_sense(d, t) <==> d < (SENSE_BASE_MULTIPLIER * pow2(t as nat)) * (SENSE_BASE_MULTIPLIER * pow2(t as nat))),
        t < 0 ==> (within_sense(d, t) <==> d * (pow2((-t) as nat) * pow2((-t) as nat)) < SENSE_BASE_MULTIPLIER * SENSE_BASE_MULTIPLIER),
{
    if t >= 0 {
        lemma_pow4_is_square(t as nat);
        let p = pow2(t as nat);
        assert((200 * p) * (200 * p) == 40000 * (p * p)) by (nonlinear_arith);
    } else {
        lemma_pow4_is_square((-t) as nat);
    }
}

/// The scan of the first `n` elements finds the nearest element of the target kind in
/// sensing range: every element of that kind at a positive squared distance within
/// range is found, at no smaller distance than the one reported; and what is reported
/// is such an element.
pub proof fn lemma_scan_finds_nearest(els: Seq<Element>, target: ElementKind, x: u16, y: u16, t: int, n: int)
    requires
        0 <= n <= els.len(),
    ensures
        forall|i: int|
            0 <= i < n && els[i].spec_kind() == target && dist_sq(els[i], x, y) > 0 && within_sense(
                #[trigger] dist_sq(els[i], x, y),
                t,
            ) ==> scan(els, target, x, y, t, n).0 && scan(els, target, x, y, t, n).1 <= dist_sq(els[i], x, y),
        scan(els, target, x, y, t, n).0 ==> exists|i: int|
            0 <= i < n && els[i].spec_kind() == target && #[trigger] dist_sq(els[i], x, y) == scan(els, target, x, y, t, n).1
                && dist_sq(els[i], x, y) > 0 && within_sense(dist_sq(els[i], x, y), t),
    decreases n,
{
    if n > 0 {
        lemma_scan_finds_nearest(els, target, x, y, t, n - 1);
        let prev = scan(els, target, x, y, t, n - 1);
        let s = scan(els, target, x, y, t, n);
        let e = els[n - 1];
        let d = dist_sq(e, x, y);
        let dx = e.spec_x() - x;
        let dy = e.spec_y() - y;
        assert(dx * dx >= 0 && dy * dy >= 0) by (nonlinear_arith);
        if e.spec_kind() == target && d != 0 {
            if prev.0 && d < prev.1 {
                let w = choose|i: int|
                    0 <= i < n - 1 && els[i].spec_kind() == target && #[trigger] dist_sq(els[i], x, y) == prev.1
                        && dist_sq(els[i], x, y) > 0 && within_sense(dist_sq(els[i], x, y), t);
                lemma_within_sense_monotone(d, prev.1, t);
            }
        }
    }
}

/// Being within sensing range holds of every smaller non-negative squared distance.
proof fn lemma_within_sense_monotone(a: int, b: int, t: int)
    requires
        0 <= a <= b,
        within_sense(b, t),
    ensures
        within_sense(a, t),
{
    if t < 0 {
        let p = pow4((-t) as nat);
        assert(a * p <= b * p) by (nonlinear_arith)
            requires
                0 <= a <= b,
                p >= 0,
        ;
    }
}

/// A gene that is not critical never runs while it is short of some kind, and no gene
/// runs while short of a kind it holds none of.
pub proof fn lemma_short_gene_needs_luck(m: Map<ElementKind, u16>, g: Gene, k: ElementKind)
    requires
        g.spec_needed().contains_key(k),
        amount(m, k) < g.spec_needed()[k],
    ensures
        !g.spec_critical() ==> !may_run(m, g),
        amount(m, k) == 0 ==> !may_run(m, g),
{
    assert(shortfall(m, g, k));
}

/// A gene short of nothing may run.
pub proof fn lemma_unshort_gene_may_run(m: Map<ElementKind, u16>, g: Gene)
    requires
        forall|k: ElementKind| g.spec_needed().contains_key(k) ==> amount(m, k) >= g.spec_needed()[k],
    ensures
        may_run(m, g),
{
}

/// The indices of the elements at a cell among the first `n` are exactly those of the
/// elements whose coordinates are the cell's, in increasing order; and the count of
/// a kind at the cell is at most their number, zero when no element of that kind lies
/// at the cell, and at least one when one does.
pub proof fn lemma_indices_at_exact(els: Seq<Element>, x: u16, y: u16, kind: ElementKind, n: int)
    requires
        0 <= n <= els.len(),
        n <= usize::MAX,
    ensures
        forall|t: int| 0 <= t < n ==> (indices_at(els, x, y, n).contains(t as usize) <==> els[t].spec_x() == x && els[t].spec_y() == y),
        forall|a: int, b: int| 0 <= a < b < indices_at(els, x, y, n).len() ==> indices_at(els, x, y, n)[a] < indices_at(els, x, y, n)[b],
        forall|t: int| 0 <= t < indices_at(els, x, y, n).len() ==> #[trigger] indices_at(els, x, y, n)[t] < n,
        0 <= count_at(els, x, y, kind, n) <= indices_at(els, x, y, n).len(),
        (forall|t: int| 0 <= t < n ==> !(els[t].spec_x() == x && els[t].spec_y() == y && els[t].spec_kind() == kind)) ==> count_at(els, x, y, kind, n) == 0,
        (exists|t: int| 0 <= t < n && els[t].spec_x() == x && els[t].spec_y() == y && els[t].spec_kind() == kind) ==> count_at(els, x, y, kind, n) >= 1,
    decreases n,
{
    lemma_indices_at_below(els, x, y, n);
    if n > 0 {
        lemma_indices_at_exact(els, x, y, kind, n - 1);
        lemma_indices_at_below(els, x, y, n - 1);
        let prev = indices_at(els, x, y, n - 1);
        let cur = indices_at(els, x, y, n);
        assert forall|t: int| 0 <= t < n implies (cur.contains(t as usize) <==> els[t].spec_x() == x && els[t].spec_y() == y) by {
            if t < n - 1 {
                if prev.contains(t as usize) {
                    let u = choose|u: int| 0 <= u < prev.len() && prev[u] == t as usize;
                    assert(cur[u] == t as usize);
                }
                if cur.contains(t as usize) {
                    let u = choose|u: int| 0 <= u < cur.len() && cur[u] == t as usize;
                    if u < prev.len() {
                        assert(prev[u] == t as usize);
                    } else {
                        assert(cur[u] == (n - 1) as usize);
                    }
                }
            } else {
                if els[t].spec_x() == x && els[t].spec_y() == y {
                    assert(cur[cur.len() - 1] == t as usize);
                } else if cur.contains(t as usize) {
                    let u = choose|u: int| 0 <= u < cur.len() && cur[u] == t as usize;
                    assert(prev[u] == t as usize);
                }
            }
        }
        assert forall|a: int, b: int| 0 <= a < b < cur.len() implies cur[a] < cur[b] by {
            if b < prev.len() {
                assert(cur[a] == prev[a] && cur[b] == prev[b]);
            } else {
                assert(cur[a] == prev[a]);
            }
        }
        if exists|t: int| 0 <= t < n && els[t].spec_x() == x && els[t].spec_y() == y && els[t].spec_kind() == kind {
            let t = choose|t: int| 0 <= t < n && els[t].spec_x() == x && els[t].spec_y() == y && els[t].spec_kind() == kind;
            if t < n - 1 {
                lemma_count_at_monotone(els, x, y, kind, n - 1, n);
            }
        }
    }
}

} // verus!
