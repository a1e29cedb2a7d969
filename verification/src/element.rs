//! Chemical elements lying on the grid.

use vstd::prelude::*;

use crate::rng::{random_index, random_u16};

verus! {

/// The kinds of element.
#[allow(non_camel_case_types)]
#[derive(Debug, Clone, Copy, PartialEq, Eq, Hash, Structural)]
pub enum ElementKind {
    SUGAR,
    SALT,
    WATER,
    ACID,
    BASE,
    OXIDE,
    FLUORIDE,
    CARBONATE,
    NITRATE,
    PHOSPHATE,
}

/// Number of kinds of element.
pub const ELEMENT_KIND_COUNT: usize = 10;

/// Position of a kind in the declaration order, from 0 to 9.
pub open spec fn kind_index(kind: ElementKind) -> nat {
    match kind {
        ElementKind::SUGAR => 0,
        ElementKind::SALT => 1,
        ElementKind::WATER => 2,
        ElementKind::ACID => 3,
        ElementKind::BASE => 4,
        ElementKind::OXIDE => 5,
        ElementKind::FLUORIDE => 6,
        ElementKind::CARBONATE => 7,
        ElementKind::NITRATE => 8,
        ElementKind::PHOSPHATE => 9,
    }
}

/// The kind at a position of the declaration order (`SUGAR` past the end).
pub open spec fn kind_at(index: int) -> ElementKind {
    if index == 1 {
        ElementKind::SALT
    } else if index == 2 {
        ElementKind::WATER
    } else if index == 3 {
        ElementKind::ACID
    } else if index == 4 {
        ElementKind::BASE
    } else if index == 5 {
        ElementKind::OXIDE
    } else if index == 6 {
        ElementKind::FLUORIDE
    } else if index == 7 {
        ElementKind::CARBONATE
    } else if index == 8 {
        ElementKind::NITRATE
    } else if index == 9 {
        ElementKind::PHOSPHATE
    } else {
        ElementKind::SUGAR
    }
}

/// All kinds, in declaration order.
pub open spec fn all_kinds() -> Seq<ElementKind> {
    Seq::new(ELEMENT_KIND_COUNT as nat, |i: int| kind_at(i))
}

/// `kind_at` undoes `kind_index`, and the other way round on `0..10`.
pub proof fn lemma_kind_index_roundtrip(kind: ElementKind, i: int)
    ensures
        kind_index(kind) < ELEMENT_KIND_COUNT,
        kind_at(kind_index(kind) as int) == kind,
        0 <= i < ELEMENT_KIND_COUNT ==> kind_index(kind_at(i)) == i,
{
}

impl ElementKind {
    /// Position of the kind in the declaration order.
    pub fn index(&self) -> (r: usize)
        ensures
            r == kind_index(*self),
            r < ELEMENT_KIND_COUNT,
    {
        match self {
            ElementKind::SUGAR => 0,
            ElementKind::SALT => 1,
            ElementKind::WATER => 2,
            ElementKind::ACID => 3,
            ElementKind::BASE => 4,
            ElementKind::OXIDE => 5,
            ElementKind::FLUORIDE => 6,
            ElementKind::CARBONATE => 7,
            ElementKind::NITRATE => 8,
            ElementKind::PHOSPHATE => 9,
        }
    }

    /// The kind at a position of the declaration order.
    pub fn from_index(index: usize) -> (r: ElementKind)
        requires
            index < ELEMENT_KIND_COUNT,
        ensures
            r == kind_at(index as int),
            kind_index(r) == index,
    {
        if index == 0 {
            ElementKind::SUGAR
        } else if index == 1 {
            ElementKind::SALT
        } else if index == 2 {
            ElementKind::WATER
        } else if index == 3 {
            ElementKind::ACID
        } else if index == 4 {
            ElementKind::BASE
        } else if index == 5 {
            ElementKind::OXIDE
        } else if index == 6 {
            ElementKind::FLUORIDE
        } else if index == 7 {
            ElementKind::CARBONATE
        } else if index == 8 {
            ElementKind::NITRATE
        } else {
            ElementKind::PHOSPHATE
        }
    }

    /// Every kind once, in declaration order.
    pub fn all() -> (r: Vec<ElementKind>)
        ensures
            r@ == all_kinds(),
    {
        let mut r: Vec<ElementKind> = Vec::new();
        let mut i: usize = 0;
        while i < ELEMENT_KIND_COUNT
            invariant
                i <= ELEMENT_KIND_COUNT,
                r@ == all_kinds().take(i as int),
            decreases ELEMENT_KIND_COUNT - i,
        {
            r.push(ElementKind::from_index(i));
            assert(all_kinds().take(i + 1) == all_kinds().take(i as int).push(kind_at(i as int)));
            i = i + 1;
        }
        assert(all_kinds().take(ELEMENT_KIND_COUNT as int) == all_kinds());
        r
    }

    /// The name of the kind, as it is written in the declaration.
    pub fn name(&self) -> (r: &'static str)
        ensures
            r@ == kind_name(*self)@,
    {
        match self {
            ElementKind::SUGAR => "SUGAR",
            ElementKind::SALT => "SALT",
            ElementKind::WATER => "WATER",
            ElementKind::ACID => "ACID",
            ElementKind::BASE => "BASE",
            ElementKind::OXIDE => "OXIDE",
            ElementKind::FLUORIDE => "FLUORIDE",
            ElementKind::CARBONATE => "CARBONATE",
            ElementKind::NITRATE => "NITRATE",
            ElementKind::PHOSPHATE => "PHOSPHATE",
        }
    }
}

/// The name of a kind.
pub open spec fn kind_name(kind: ElementKind) -> &'static str {
    match kind {
        ElementKind::SUGAR => "SUGAR",
        ElementKind::SALT => "SALT",
        ElementKind::WATER => "WATER",
        ElementKind::ACID => "ACID",
        ElementKind::BASE => "BASE",
        ElementKind::OXIDE => "OXIDE",
        ElementKind::FLUORIDE => "FLUORIDE",
        ElementKind::CARBONATE => "CARBONATE",
        ElementKind::NITRATE => "NITRATE",
        ElementKind::PHOSPHATE => "PHOSPHATE",
    }
}

/// An element lying at a cell of the grid.
#[derive(Debug, Clone, Copy)]
pub struct Element {
    x: u16,
    y: u16,
    kind: ElementKind,
}

impl Element {
    pub closed spec fn spec_x(&self) -> u16 {
        self.x
    }

    pub closed spec fn spec_y(&self) -> u16 {
        self.y
    }

    pub closed spec fn spec_kind(&self) -> ElementKind {
        self.kind
    }

    /// An element of the given kind at `(x, y)`.
    pub fn new(x: u16, y: u16, kind: ElementKind) -> (r: Self)
        ensures
            r.spec_x() == x,
            r.spec_y() == y,
            r.spec_kind() == kind,
    {
        Element { x, y, kind }
    }

    pub fn get_x(&self) -> (r: &u16)
        ensures
            *r == self.spec_x(),
    {
        &self.x
    }

    pub fn get_y(&self) -> (r: &u16)
        ensures
            *r == self.spec_y(),
    {
        &self.y
    }

    pub fn get_kind(&self) -> (r: ElementKind)
        ensures
            r == self.spec_kind(),
    {
        self.kind
    }
}

/// An element of a random kind at a random cell of `[0, max_x) x [0, max_y)`
/// (at coordinate 0 along an axis whose bound is 0).
pub fn random_element(max_x: u16, max_y: u16) -> (r: Element)
    ensures
        max_x == 0 ==> r.spec_x() == 0,
        max_x > 0 ==> r.spec_x() < max_x,
        max_y == 0 ==> r.spec_y() == 0,
        max_y > 0 ==> r.spec_y() < max_y,
{
    let x = random_u16(0, max_x);
    let y = random_u16(0, max_y);
    let kind = random_element_kind();
    Element { x, y, kind }
}

/// A kind drawn uniformly from the list of all kinds.
pub fn random_element_kind() -> (r: ElementKind)
    ensures
        all_kinds().contains(r),
{
    let list = ElementKind::all();
    let i = random_index(list.len());
    let r = list[i];
    assert(all_kinds()[i as int] == r);
    r
}

} // verus!
