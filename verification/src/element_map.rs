//! Amounts of elements, by kind.

use std::collections::HashMap;

use vstd::prelude::*;

use crate::element::{
    all_kinds, kind_at, kind_index, lemma_kind_index_roundtrip, random_element_kind, ElementKind,
    ELEMENT_KIND_COUNT,
};

verus! {

/// The amount held of a kind, 0 where the kind has no entry.
pub open spec fn amount(m: Map<ElementKind, u16>, kind: ElementKind) -> u16 {
    if m.contains_key(kind) {
        m[kind]
    } else {
        0
    }
}

/// The kinds that have an entry among the first `n` kinds of the declaration order,
/// in that order.
pub open spec fn present_kinds_upto(m: Map<ElementKind, u16>, n: int) -> Seq<ElementKind>
    decreases n,
{
    if n <= 0 {
        Seq::empty()
    } else if m.contains_key(kind_at(n - 1)) {
        present_kinds_upto(m, n - 1).push(kind_at(n - 1))
    } else {
        present_kinds_upto(m, n - 1)
    }
}

/// The kinds that have an entry, in declaration order: the order in which
/// the maps of this crate are walked.
pub open spec fn present_kinds(m: Map<ElementKind, u16>) -> Seq<ElementKind> {
    present_kinds_upto(m, ELEMENT_KIND_COUNT as int)
}

/// Sum of the amounts of the first `n` kinds.
pub open spec fn total_upto(m: Map<ElementKind, u16>, n: int) -> int
    decreases n,
{
    if n <= 0 {
        0
    } else {
        total_upto(m, n - 1) + amount(m, kind_at(n - 1))
    }
}

/// Sum of all amounts.
pub open spec fn total(m: Map<ElementKind, u16>) -> int {
    total_upto(m, ELEMENT_KIND_COUNT as int)
}

/// Every entry of the map holds at least one element.
pub open spec fn entries_positive(m: Map<ElementKind, u16>) -> bool {
    forall|k: ElementKind| #[trigger] m.contains_key(k) ==> m[k] >= 1
}

/// The map with every amount halved (rounded down).
pub open spec fn halved(m: Map<ElementKind, u16>) -> Map<ElementKind, u16> {
    m.map_values(|v: u16| (v / 2) as u16)
}

/// Taking away what was just added gives back the amount there was: a kind that had
/// no entry is left with an entry of 0.
pub proof fn lemma_add_then_remove(m: Map<ElementKind, u16>, kind: ElementKind, quantity: u16)
    requires
        amount(m, kind) + quantity <= u16::MAX,
    ensures
        ({
            let added = m.insert(kind, (amount(m, kind) + quantity) as u16);
            let removed = added.insert(
                kind,
                if amount(added, kind) >= quantity {
                    (amount(added, kind) - quantity) as u16
                } else {
                    0
                },
            );
            removed == m.insert(kind, amount(m, kind))
        }),
{
    let added = m.insert(kind, (amount(m, kind) + quantity) as u16);
    let removed = added.insert(
        kind,
        if amount(added, kind) >= quantity {
            (amount(added, kind) - quantity) as u16
        } else {
            0
        },
    );
    assert(removed =~= m.insert(kind, amount(m, kind)));
}

/// Halving splits each amount into two equal halves, losing at most one element: a
/// parent keeps a half and its offspring gets the other.
pub proof fn lemma_halves(m: Map<ElementKind, u16>, kind: ElementKind)
    ensures
        2 * amount(halved(m), kind) <= amount(m, kind) <= 2 * amount(halved(m), kind) + 1,
        halved(m).dom() == m.dom(),
{
    assert(halved(m).dom() =~= m.dom());
}

/// Amounts of elements, by kind.
pub struct ElementMap {
    amounts: HashMap<u8, u16>,
}

impl View for ElementMap {
    type V = Map<ElementKind, u16>;

    closed spec fn view(&self) -> Map<ElementKind, u16> {
        Map::new(
            |k: ElementKind| self.amounts@.contains_key(kind_index(k) as u8),
            |k: ElementKind| self.amounts@[kind_index(k) as u8],
        )
    }
}

/// Adding one to the amount of a kind adds one to the total.
proof fn lemma_total_insert(m: Map<ElementKind, u16>, kind: ElementKind, v: u16, n: int)
    requires
        0 <= n <= ELEMENT_KIND_COUNT,
    ensures
        total_upto(m.insert(kind, v), n) == total_upto(m, n) + (if kind_index(kind) < n {
            v - amount(m, kind)
        } else {
            0
        }),
    decreases n,
{
    if n > 0 {
        lemma_total_insert(m, kind, v, n - 1);
        lemma_kind_index_roundtrip(kind, n - 1);
    }
}


/// The kinds walked are exactly the kinds with an entry, each once, in increasing
/// declaration order.
pub proof fn lemma_present_kinds(m: Map<ElementKind, u16>, n: int)
    requires
        0 <= n <= ELEMENT_KIND_COUNT,
    ensures
        forall|t: int|
            0 <= t < present_kinds_upto(m, n).len() ==> m.contains_key(
                #[trigger] present_kinds_upto(m, n)[t],
            ) && kind_index(present_kinds_upto(m, n)[t]) < n,
        forall|t1: int, t2: int|
            0 <= t1 < t2 < present_kinds_upto(m, n).len() ==> kind_index(
                #[trigger] present_kinds_upto(m, n)[t1],
            ) < kind_index(#[trigger] present_kinds_upto(m, n)[t2]),
        forall|k: ElementKind|
            m.contains_key(k) && kind_index(k) < n ==> #[trigger] present_kinds_upto(
                m,
                n,
            ).contains(k),
    decreases n,
{
    if n > 0 {
        lemma_present_kinds(m, n - 1);
        lemma_kind_index_roundtrip(kind_at(n - 1), n - 1);
        let s = present_kinds_upto(m, n);
        let p = present_kinds_upto(m, n - 1);
        assert forall|k: ElementKind| m.contains_key(k) && kind_index(k) < n implies #[trigger] s.contains(k) by {
            lemma_kind_index_roundtrip(k, n - 1);
            if kind_index(k) < n - 1 {
                assert(p.contains(k));
                let t = choose|t: int| 0 <= t < p.len() && p[t] == k;
                if m.contains_key(kind_at(n - 1)) {
                    assert(s[t] == k);
                }
            } else {
                assert(k == kind_at(n - 1));
                assert(s[s.len() - 1] == k);
            }
        }
    }
}

impl ElementMap {
    /// A map with no entry.
    pub fn new() -> (r: Self)
        ensures
            r@ == Map::<ElementKind, u16>::empty(),
    {
        let r = ElementMap { amounts: HashMap::new() };
        assert(r@ =~= Map::<ElementKind, u16>::empty());
        r
    }

    /// The amount of a kind, if it has an entry.
    pub fn get(&self, kind: ElementKind) -> (r: Option<u16>)
        ensures
            r == (if self@.contains_key(kind) {
                Some(self@[kind])
            } else {
                None
            }),
    {
        let i = kind.index() as u8;
        match self.amounts.get(&i) {
            Some(v) => Some(*v),
            None => None,
        }
    }

    /// The amount of a kind, 0 where it has no entry.
    pub fn amount_of(&self, kind: ElementKind) -> (r: u16)
        ensures
            r == amount(self@, kind),
    {
        match self.get(kind) {
            Some(v) => v,
            None => 0,
        }
    }

    /// Sets the amount of a kind.
    pub fn insert(&mut self, kind: ElementKind, value: u16)
        ensures
            final(self)@ == old(self)@.insert(kind, value),
    {
        let i = kind.index() as u8;
        self.amounts.insert(i, value);
        proof {
            assert forall|k: ElementKind| #![auto] (kind_index(k) as u8 == i) == (k == kind) by {
                lemma_kind_index_roundtrip(k, 0);
                lemma_kind_index_roundtrip(kind, 0);
            }
        }
        assert(self@ =~= old(self)@.insert(kind, value));
    }

    /// Adds `quantity` to the amount of a kind, creating its entry at 0 first.
    pub fn add(&mut self, kind: ElementKind, quantity: u16)
        requires
            amount(old(self)@, kind) + quantity <= u16::MAX,
        ensures
            final(self)@ == old(self)@.insert(kind, (amount(old(self)@, kind) + quantity) as u16),
    {
        let current = self.amount_of(kind);
        self.insert(kind, current + quantity);
    }

    /// Takes `quantity` from the amount of a kind, stopping at 0; the kind gets an
    /// entry in any case.
    pub fn remove_saturating(&mut self, kind: ElementKind, quantity: u16)
        ensures
            final(self)@ == old(self)@.insert(
                kind,
                if amount(old(self)@, kind) >= quantity {
                    (amount(old(self)@, kind) - quantity) as u16
                } else {
                    0
                },
            ),
    {
        let current = self.amount_of(kind);
        self.insert(kind, current.saturating_sub(quantity));
    }

    /// A copy of the map with every amount halved.
    pub fn halved(&self) -> (r: Self)
        ensures
            r@ == halved(self@),
    {
        let mut r = ElementMap::new();
        let mut i: usize = 0;
        while i < ELEMENT_KIND_COUNT
            invariant
                i <= ELEMENT_KIND_COUNT,
                forall|k: ElementKind|
                    #![trigger r@.contains_key(k)]
                    r@.contains_key(k) <==> (kind_index(k) < i && self@.contains_key(k)),
                forall|k: ElementKind| #[trigger]
                    r@.contains_key(k) ==> r@[k] == self@[k] / 2,
            decreases ELEMENT_KIND_COUNT - i,
        {
            let kind = ElementKind::from_index(i);
            match self.get(kind) {
                Some(v) => r.insert(kind, v / 2),
                None => {},
            }
            proof {
                assert forall|k: ElementKind| #![auto] kind_index(k) == i ==> k == kind by {
                    lemma_kind_index_roundtrip(k, i as int);
                }
            }
            i = i + 1;
        }
        proof {
            assert forall|k: ElementKind| #![auto] kind_index(k) < ELEMENT_KIND_COUNT by {
                lemma_kind_index_roundtrip(k, 0);
            }
        }
        assert(r@ =~= halved(self@));
        r
    }

    /// Halves every amount in place.
    pub fn halve(&mut self)
        ensures
            final(self)@ == halved(old(self)@),
    {
        let h = self.halved();
        *self = h;
    }

    /// The kinds that have an entry, in declaration order.
    pub fn kinds(&self) -> (r: Vec<ElementKind>)
        ensures
            r@ == present_kinds(self@),
            forall|t: int| 0 <= t < r@.len() ==> self@.contains_key(#[trigger] r@[t]),
    {
        let mut r: Vec<ElementKind> = Vec::new();
        let mut i: usize = 0;
        while i < ELEMENT_KIND_COUNT
            invariant
                i <= ELEMENT_KIND_COUNT,
                r@ == present_kinds_upto(self@, i as int),
            decreases ELEMENT_KIND_COUNT - i,
        {
            let kind = ElementKind::from_index(i);
            if self.get(kind).is_some() {
                r.push(kind);
            }
            i = i + 1;
        }
        proof {
            lemma_present_kinds(self@, 10);
        }
        r
    }

    /// A map holding `count` elements of kinds drawn one by one with
    /// `random_element_kind`.
    pub fn random_with_total(count: u16) -> (r: Self)
        ensures
            total(r@) == count,
            entries_positive(r@),
    {
        let mut r = ElementMap::new();
        let mut n: u16 = 0;
        assert(total_upto(r@, 10) == 0) by {
            reveal_with_fuel(total_upto, 11);
        }
        while n < count
            invariant
                n <= count,
                total(r@) == n,
                entries_positive(r@),
            decreases count - n,
        {
            let kind = random_element_kind();
            proof {
                lemma_total_le(r@, kind, 10);
                lemma_kind_index_roundtrip(kind, 0);
                lemma_total_insert(r@, kind, (amount(r@, kind) + 1) as u16, 10);
            }
            r.add(kind, 1);
            n = n + 1;
        }
        r
    }
}

/// The amount of one kind is at most the total.
pub proof fn lemma_total_le(m: Map<ElementKind, u16>, kind: ElementKind, n: int)
    requires
        0 <= n <= ELEMENT_KIND_COUNT,
    ensures
        kind_index(kind) < n ==> amount(m, kind) <= total_upto(m, n),
        total_upto(m, n) >= 0,
    decreases n,
{
    if n > 0 {
        lemma_total_le(m, kind, n - 1);
        lemma_kind_index_roundtrip(kind, n - 1);
    }
}

impl Clone for ElementMap {
    fn clone(&self) -> (r: Self)
        ensures
            r@ == self@,
    {
        ElementMap { amounts: self.amounts.clone() }
    }
}

} // verus!
