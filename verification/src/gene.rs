//! Genes: the reactions a creature can run.

use std::hash::DefaultHasher;
use std::hash::Hasher;

use vstd::prelude::*;

use crate::config::{FREQUENCY_EXPONENT_MAX, FREQUENCY_EXPONENT_MIN};
use crate::element::{kind_index, ElementKind, ELEMENT_KIND_COUNT};
use crate::element_map::{present_kinds, ElementMap};

verus! {

/// The bytes a `u16` is hashed as (little-endian).
pub open spec fn u16_bytes(v: u16) -> Seq<u8> {
    seq![(v % 256) as u8, (v / 256) as u8]
}

/// The bytes an `i16` is hashed as (two's complement, little-endian).
pub open spec fn i16_bytes(v: i16) -> Seq<u8> {
    u16_bytes((if v < 0 { v + 65536 } else { v as int }) as u16)
}

/// The bytes a kind is hashed as: its discriminant as a 64-bit little-endian integer.
pub open spec fn kind_bytes(kind: ElementKind) -> Seq<u8> {
    seq![kind_index(kind) as u8, 0u8, 0u8, 0u8, 0u8, 0u8, 0u8, 0u8]
}

/// The bytes a `bool` is hashed as.
pub open spec fn bool_bytes(b: bool) -> Seq<u8> {
    seq![if b { 1u8 } else { 0u8 }]
}

/// The writes that hash the keys of a map, in the order the map is walked.
pub open spec fn key_writes(m: Map<ElementKind, u16>) -> Seq<Seq<u8>> {
    present_kinds(m).map_values(|k: ElementKind| kind_bytes(k))
}

/// The writes that hash the values of a map, in the order the map is walked.
pub open spec fn value_writes(m: Map<ElementKind, u16>) -> Seq<Seq<u8>> {
    present_kinds(m).map_values(|k: ElementKind| u16_bytes(m[k]))
}

/// The writes that hash a map: all its keys, then all its values.
pub open spec fn map_writes(m: Map<ElementKind, u16>) -> Seq<Seq<u8>> {
    key_writes(m) + value_writes(m)
}

/// A gene: when it runs, it uses up the elements it needs, produces new ones and
/// ejects some onto the grid around the creature.
pub struct Gene {
    elements_needed: ElementMap,
    elements_produced: ElementMap,
    elements_ejected: ElementMap,
    frequency_exponent: i16,
    size_multiplier_exponent: i16,
    speed_multiplier_exponent: i16,
    sense_multiplier_exponent: i16,
    target_element: ElementKind,
    critical: bool,
    reproduce: bool,
}

impl Gene {
    /// The frequency exponent of a gene lies in
    /// `[FREQUENCY_EXPONENT_MIN, FREQUENCY_EXPONENT_MAX)`.
    #[verifier::type_invariant]
    closed spec fn frequency_in_range(self) -> bool {
        FREQUENCY_EXPONENT_MIN <= self.frequency_exponent < FREQUENCY_EXPONENT_MAX
    }

    pub closed spec fn spec_needed(&self) -> Map<ElementKind, u16> {
        self.elements_needed@
    }

    pub closed spec fn spec_produced(&self) -> Map<ElementKind, u16> {
        self.elements_produced@
    }

    pub closed spec fn spec_ejected(&self) -> Map<ElementKind, u16> {
        self.elements_ejected@
    }

    pub closed spec fn spec_frequency_exponent(&self) -> i16 {
        self.frequency_exponent
    }

    pub closed spec fn spec_size_exponent(&self) -> i16 {
        self.size_multiplier_exponent
    }

    pub closed spec fn spec_speed_exponent(&self) -> i16 {
        self.speed_multiplier_exponent
    }

    pub closed spec fn spec_sense_exponent(&self) -> i16 {
        self.sense_multiplier_exponent
    }

    pub closed spec fn spec_target(&self) -> ElementKind {
        self.target_element
    }

    pub closed spec fn spec_critical(&self) -> bool {
        self.critical
    }

    pub closed spec fn spec_reproduce(&self) -> bool {
        self.reproduce
    }

    /// Two genes hold the same data.
    pub open spec fn same_as(&self, other: &Gene) -> bool {
        &&& self.spec_needed() == other.spec_needed()
        &&& self.spec_produced() == other.spec_produced()
        &&& self.spec_ejected() == other.spec_ejected()
        &&& self.spec_frequency_exponent() == other.spec_frequency_exponent()
        &&& self.spec_size_exponent() == other.spec_size_exponent()
        &&& self.spec_speed_exponent() == other.spec_speed_exponent()
        &&& self.spec_sense_exponent() == other.spec_sense_exponent()
        &&& self.spec_target() == other.spec_target()
        &&& self.spec_critical() == other.spec_critical()
        &&& self.spec_reproduce() == other.spec_reproduce()
    }

    /// The writes that `hash_into` makes: the three maps (needed, produced, ejected),
    /// each as its keys and then its values, then the four exponents, the target,
    /// and the two flags.
    pub open spec fn hash_writes(&self) -> Seq<Seq<u8>> {
        map_writes(self.spec_needed()) + map_writes(self.spec_produced()) + map_writes(
            self.spec_ejected(),
        ) + seq![
            i16_bytes(self.spec_frequency_exponent()),
            i16_bytes(self.spec_size_exponent()),
            i16_bytes(self.spec_speed_exponent()),
            i16_bytes(self.spec_sense_exponent()),
            kind_bytes(self.spec_target()),
            bool_bytes(self.spec_critical()),
            bool_bytes(self.spec_reproduce()),
        ]
    }

    /// A gene made of the given parts.
    pub fn new(
        elements_needed: ElementMap,
        elements_produced: ElementMap,
        elements_ejected: ElementMap,
        frequency_exponent: i16,
        size_multiplier_exponent: i16,
        speed_multiplier_exponent: i16,
        sense_multiplier_exponent: i16,
        target_element: ElementKind,
        critical: bool,
        reproduce: bool,
    ) -> (r: Gene)
        requires
            FREQUENCY_EXPONENT_MIN <= frequency_exponent < FREQUENCY_EXPONENT_MAX,
        ensures
            r.spec_needed() == elements_needed@,
            r.spec_produced() == elements_produced@,
            r.spec_ejected() == elements_ejected@,
            r.spec_frequency_exponent() == frequency_exponent,
            r.spec_size_exponent() == size_multiplier_exponent,
            r.spec_speed_exponent() == speed_multiplier_exponent,
            r.spec_sense_exponent() == sense_multiplier_exponent,
            r.spec_target() == target_element,
            r.spec_critical() == critical,
            r.spec_reproduce() == reproduce,
    {
        Gene {
            elements_needed,
            elements_produced,
            elements_ejected,
            frequency_exponent,
            size_multiplier_exponent,
            speed_multiplier_exponent,
            sense_multiplier_exponent,
            target_element,
            critical,
            reproduce,
        }
    }

    pub fn get_elements_needed(&self) -> (r: &ElementMap)
        ensures
            r@ == self.spec_needed(),
    {
        &self.elements_needed
    }

    pub fn get_elements_produced(&self) -> (r: &ElementMap)
        ensures
            r@ == self.spec_produced(),
    {
        &self.elements_produced
    }

    pub fn get_elements_ejected(&self) -> (r: &ElementMap)
        ensures
            r@ == self.spec_ejected(),
    {
        &self.elements_ejected
    }

    pub fn get_frequency_exponent(&self) -> (r: i16)
        ensures
            r == self.spec_frequency_exponent(),
            FREQUENCY_EXPONENT_MIN <= r < FREQUENCY_EXPONENT_MAX,
    {
        proof {
            use_type_invariant(self);
        }
        self.frequency_exponent
    }

    pub fn get_size_multiplier_exponent(&self) -> (r: i16)
        ensures
            r == self.spec_size_exponent(),
    {
        self.size_multiplier_exponent
    }

    pub fn get_speed_multiplier_exponent(&self) -> (r: i16)
        ensures
            r == self.spec_speed_exponent(),
    {
        self.speed_multiplier_exponent
    }

    pub fn get_sense_multiplier_exponent(&self) -> (r: i16)
        ensures
            r == self.spec_sense_exponent(),
    {
        self.sense_multiplier_exponent
    }

    pub fn get_target_element(&self) -> (r: ElementKind)
        ensures
            r == self.spec_target(),
    {
        self.target_element
    }

    pub fn is_critical(&self) -> (r: bool)
        ensures
            r == self.spec_critical(),
    {
        self.critical
    }

    pub fn will_reproduce(&self) -> (r: bool)
        ensures
            r == self.spec_reproduce(),
    {
        self.reproduce
    }

    /// Feeds the gene to a hasher (see `hash_writes`).
    pub fn hash_into(&self, state: &mut DefaultHasher)
        ensures
            final(state)@ == old(state)@ + self.hash_writes(),
    {
        hash_map_into(&self.elements_needed, state);
        hash_map_into(&self.elements_produced, state);
        hash_map_into(&self.elements_ejected, state);
        write_i16(state, self.frequency_exponent);
        write_i16(state, self.size_multiplier_exponent);
        write_i16(state, self.speed_multiplier_exponent);
        write_i16(state, self.sense_multiplier_exponent);
        write_kind(state, self.target_element);
        write_bool(state, self.critical);
        write_bool(state, self.reproduce);
        assert(final(state)@ =~= old(state)@ + self.hash_writes());
    }
}

impl Clone for Gene {
    fn clone(&self) -> (r: Self)
        ensures
            r.same_as(self),
    {
        proof {
            use_type_invariant(self);
        }
        Gene {
            elements_needed: self.elements_needed.clone(),
            elements_produced: self.elements_produced.clone(),
            elements_ejected: self.elements_ejected.clone(),
            frequency_exponent: self.frequency_exponent,
            size_multiplier_exponent: self.size_multiplier_exponent,
            speed_multiplier_exponent: self.speed_multiplier_exponent,
            sense_multiplier_exponent: self.sense_multiplier_exponent,
            target_element: self.target_element,
            critical: self.critical,
            reproduce: self.reproduce,
        }
    }
}

/// Writes `v` to the hasher as two little-endian bytes.
fn write_u16(state: &mut DefaultHasher, v: u16)
    ensures
        final(state)@ == old(state)@.push(u16_bytes(v)),
{
    let mut bytes: Vec<u8> = Vec::new();
    bytes.push((v % 256) as u8);
    bytes.push((v / 256) as u8);
    assert(bytes@ =~= u16_bytes(v));
    state.write(bytes.as_slice());
}

/// Writes `v` to the hasher as two little-endian bytes of its two's complement.
fn write_i16(state: &mut DefaultHasher, v: i16)
    ensures
        final(state)@ == old(state)@.push(i16_bytes(v)),
{
    let u: u16 = if v < 0 {
        (v as i32 + 65536) as u16
    } else {
        v as u16
    };
    write_u16(state, u);
}

/// Writes a kind to the hasher as its discriminant, eight little-endian bytes.
fn write_kind(state: &mut DefaultHasher, kind: ElementKind)
    ensures
        final(state)@ == old(state)@.push(kind_bytes(kind)),
{
    let mut bytes: Vec<u8> = Vec::new();
    bytes.push(kind.index() as u8);
    let mut i: usize = 1;
    while i < 8
        invariant
            1 <= i <= 8,
            bytes@.len() == i,
            bytes@[0] == kind_index(kind) as u8,
            forall|j: int| 1 <= j < i ==> bytes@[j] == 0u8,
        decreases 8 - i,
    {
        bytes.push(0u8);
        i = i + 1;
    }
    assert(bytes@ =~= kind_bytes(kind));
    state.write(bytes.as_slice());
}

/// Writes a flag to the hasher as one byte.
fn write_bool(state: &mut DefaultHasher, b: bool)
    ensures
        final(state)@ == old(state)@.push(bool_bytes(b)),
{
    let mut bytes: Vec<u8> = Vec::new();
    bytes.push(if b { 1u8 } else { 0u8 });
    assert(bytes@ =~= bool_bytes(b));
    state.write(bytes.as_slice());
}

/// Writes all the keys of a map, then all its values, in the order the map is walked.
fn hash_map_into(m: &ElementMap, state: &mut DefaultHasher)
    ensures
        final(state)@ == old(state)@ + map_writes(m@),
{
    let kinds = m.kinds();
    let ghost start = state@;
    let mut i: usize = 0;
    while i < kinds.len()
        invariant
            i <= kinds@.len(),
            kinds@ == present_kinds(m@),
            state@ == start + key_writes(m@).take(i as int),
        decreases kinds@.len() - i,
    {
        write_kind(state, kinds[i]);
        assert(key_writes(m@).take(i + 1) =~= key_writes(m@).take(i as int).push(
            kind_bytes(kinds@[i as int]),
        ));
        i = i + 1;
    }
    assert(key_writes(m@).take(kinds@.len() as int) =~= key_writes(m@));
    let ghost middle = state@;
    let mut j: usize = 0;
    while j < kinds.len()
        invariant
            j <= kinds@.len(),
            kinds@ == present_kinds(m@),
            forall|t: int| 0 <= t < kinds@.len() ==> m@.contains_key(#[trigger] kinds@[t]),
            state@ == middle + value_writes(m@).take(j as int),
        decreases kinds@.len() - j,
    {
        let v = m.amount_of(kinds[j]);
        write_u16(state, v);
        assert(value_writes(m@).take(j + 1) =~= value_writes(m@).take(j as int).push(
            u16_bytes(m@[kinds@[j as int]]),
        ));
        j = j + 1;
    }
    assert(value_writes(m@).take(kinds@.len() as int) =~= value_writes(m@));
    assert(state@ =~= start + map_writes(m@));
}

} // verus!
