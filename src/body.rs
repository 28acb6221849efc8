use vstd::prelude::*;
use crate::geometry::Vec2;

verus! {

/// How the physics engine may move a body.
#[derive(Clone, Copy, Debug, PartialEq, Eq, Structural)]
pub enum BodyKind {
    /// Never moved by a step and never recycled.
    Static,
    /// Translated by collisions; its rotation is driven from outside.
    DynamicPinnedRotation,
    /// Translated and rotated by the engine.
    DynamicFree,
}

impl BodyKind {
    pub open spec fn dynamic(self) -> bool {
        !(self is Static)
    }

    pub fn is_dynamic(&self) -> (r: bool)
        ensures
            r == self.dynamic(),
    {
        match self {
            BodyKind::Static => false,
            _ => true,
        }
    }
}

/// A primitive collision shape, sizes in fixed-point simulation units.
#[derive(Clone, Copy, Debug, PartialEq, Eq, Structural)]
pub enum Primitive {
    Circle { radius: i64 },
    Rect { half_width: i64, half_height: i64 },
}

/// One part of a compound shape, placed relative to the body.
#[derive(Clone, Copy, Debug, PartialEq, Eq, Structural)]
pub struct SubShape {
    pub offset: Vec2,
    pub rotation: i64,
    pub primitive: Primitive,
}

/// The collision shape of a body.
#[derive(Clone, Debug)]
pub enum Shape {
    Single(Primitive),
    Compound(Vec<SubShape>),
}

/// A body as the store holds it. Rotation is a fixed-point angle.
#[derive(Clone, Debug)]
pub struct Body {
    pub kind: BodyKind,
    pub position: Vec2,
    pub rotation: i64,
    pub shape: Shape,
    /// Bounciness in thousandths.
    pub restitution: u32,
}

/// A reference to a body: the slot it lives in and the generation of that
/// slot when the body was inserted.
#[derive(Clone, Copy, Debug, PartialEq, Eq, Structural)]
pub struct Handle {
    pub index: usize,
    pub generation: u64,
}

/// What replacement bodies are made of, and where they appear: uniformly in
/// the closed box from `band_min` to `band_max` (a horizontal band at a fixed
/// height when both corners share their `y`).
#[derive(Clone, Copy, Debug, PartialEq, Eq, Structural)]
pub struct SpawnTemplate {
    pub primitive: Primitive,
    pub restitution: u32,
    pub band_min: Vec2,
    pub band_max: Vec2,
}

/// The coordinate that a random sample `s` selects in `lo ..= hi`.
pub open spec fn band_coord(lo: int, hi: int, s: int) -> int {
    lo + s % (hi - lo + 1)
}

impl SpawnTemplate {
    pub open spec fn wf(self) -> bool {
        self.band_min.x <= self.band_max.x && self.band_min.y <= self.band_max.y
    }

    /// Whether `p` lies inside the band.
    pub open spec fn in_band(self, p: Vec2) -> bool {
        self.band_min.x <= p.x <= self.band_max.x && self.band_min.y <= p.y <= self.band_max.y
    }

    /// The spawn position chosen by the sample pair `s`.
    pub open spec fn position_for(self, s: (u64, u64)) -> (int, int) {
        (
            band_coord(self.band_min.x as int, self.band_max.x as int, s.0 as int),
            band_coord(self.band_min.y as int, self.band_max.y as int, s.1 as int),
        )
    }

    /// Whether `b` is the body that this template spawns for the sample `s`.
    pub open spec fn spawns(self, s: (u64, u64), b: Body) -> bool {
        &&& b.kind == BodyKind::DynamicFree
        &&& b.position@ == self.position_for(s)
        &&& b.rotation == 0
        &&& b.shape == Shape::Single(self.primitive)
        &&& b.restitution == self.restitution
    }

    /// Where the sample `s` places a new body; always inside the band.
    pub fn spawn_position(&self, s: (u64, u64)) -> (r: Vec2)
        requires
            self.wf(),
        ensures
            r@ == self.position_for(s),
            self.band_min.x <= r.x <= self.band_max.x,
            self.band_min.y <= r.y <= self.band_max.y,
    {
        let x = band_pick(self.band_min.x, self.band_max.x, s.0);
        let y = band_pick(self.band_min.y, self.band_max.y, s.1);
        Vec2 { x, y }
    }

    /// The body spawned for the sample `s`.
    pub fn spawn_body(&self, s: (u64, u64)) -> (b: Body)
        requires
            self.wf(),
        ensures
            self.spawns(s, b),
            self.band_min.x <= b.position.x <= self.band_max.x,
            self.band_min.y <= b.position.y <= self.band_max.y,
    {
        Body {
            kind: BodyKind::DynamicFree,
            position: self.spawn_position(s),
            rotation: 0,
            shape: Shape::Single(self.primitive),
            restitution: self.restitution,
        }
    }
}

fn band_pick(lo: i64, hi: i64, s: u64) -> (r: i64)
    requires
        lo <= hi,
    ensures
        r == band_coord(lo as int, hi as int, s as int),
        lo <= r <= hi,
{
    let width: u128 = (hi as i128 - lo as i128) as u128 + 1;
    let off: u128 = (s as u128) % width;
    (lo as i128 + off as i128) as i64
}

} // verus!
