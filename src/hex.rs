use vstd::prelude::*;

use crate::point::Point;
use crate::unit::Unit;

verus! {

/// The kinds of wall that a field can hold.
#[derive(Clone, Copy, Debug, PartialEq, Eq, Structural)]
pub enum WallKind {
    Default,
}

/// An obstacle: no unit can enter or cross a hex with a wall.
#[derive(Clone, Copy, Debug, PartialEq, Eq, Structural)]
pub struct Wall {
    pub kind: WallKind,
}

/// What a hex can hold besides a unit.
#[derive(Clone, Copy, Debug, PartialEq, Eq, Structural)]
pub enum Content {
    Wall(Wall),
}

/// One cell of the field, with at most one unit and at most one content.
#[derive(Clone, Copy, Debug)]
pub struct Hex {
    pub x: u32,
    pub y: u32,
    pub unit: Option<Unit>,
    pub content: Option<Content>,
}

impl Wall {
    pub fn new() -> (r: Wall)
        ensures
            r.kind == WallKind::Default,
    {
        Wall { kind: WallKind::Default }
    }
}

impl Hex {
    /// An empty hex at `(x, y)`.
    pub fn new(x: u32, y: u32) -> (r: Hex)
        ensures
            r.x == x,
            r.y == y,
            r.unit is None,
            r.content is None,
    {
        Hex { x, y, unit: None, content: None }
    }

    pub open spec fn spec_is_empty(&self) -> bool {
        self.unit is None && self.content is None
    }

    pub fn get_unit(&self) -> (r: Option<Unit>)
        ensures
            r == self.unit,
    {
        self.unit
    }

    pub fn get_unit_mut(&mut self) -> (r: Option<&mut Unit>)
        ensures
            old(self).unit is Some <==> r is Some,
            r is Some ==> *r->0 == old(self).unit->0,
            r is Some ==> *final(self) == (Hex { unit: Some(*final(r->0)), ..*old(self) }),
            r is None ==> *final(self) == *old(self),
    {
        self.unit.as_mut()
    }

    pub fn set_unit(&mut self, unit: Option<Unit>)
        ensures
            *final(self) == (Hex { unit, ..*old(self) }),
    {
        self.unit = unit;
    }

    pub fn get_content(&self) -> (r: Option<Content>)
        ensures
            r == self.content,
    {
        self.content
    }

    pub fn set_content(&mut self, content: Option<Content>)
        ensures
            *final(self) == (Hex { content, ..*old(self) }),
    {
        self.content = content;
    }

    /// True when the hex holds neither a unit nor a content.
    pub fn is_empty(&self) -> (r: bool)
        ensures
            r == self.spec_is_empty(),
    {
        self.unit.is_none() && self.content.is_none()
    }

    pub open spec fn spec_point(&self) -> Point {
        Point { x: self.x, y: self.y }
    }

    pub fn to_point(&self) -> (r: Point)
        ensures
            r == self.spec_point(),
    {
        Point { x: self.x, y: self.y }
    }
}

} // verus!
