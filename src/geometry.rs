use vstd::prelude::*;

verus! {

/// A point or displacement in fixed-point units.
#[derive(Clone, Copy, Debug, PartialEq, Eq, Structural)]
pub struct Vec2 {
    pub x: i64,
    pub y: i64,
}

/// The component-wise sum of two pairs.
pub open spec fn vadd(p: (int, int), q: (int, int)) -> (int, int) {
    (p.0 + q.0, p.1 + q.1)
}

/// The pair `p` multiplied by the factor `s`.
pub open spec fn vscale(p: (int, int), s: int) -> (int, int) {
    (p.0 * s, p.1 * s)
}

/// Whether `v` is representable as a `Vec2`.
pub open spec fn in_range(v: (int, int)) -> bool {
    i64::MIN <= v.0 <= i64::MAX && i64::MIN <= v.1 <= i64::MAX
}

impl View for Vec2 {
    type V = (int, int);

    open spec fn view(&self) -> (int, int) {
        (self.x as int, self.y as int)
    }
}

impl Vec2 {
    pub fn new(x: i64, y: i64) -> (r: Vec2)
        ensures
            r@ == (x as int, y as int),
    {
        Vec2 { x, y }
    }

    /// Component-wise sum.
    pub fn add(self, o: Vec2) -> (r: Vec2)
        requires
            in_range(vadd(self@, o@)),
        ensures
            r@ == vadd(self@, o@),
    {
        Vec2 { x: self.x + o.x, y: self.y + o.y }
    }
}

/// Projects simulation positions to screen positions by a fixed factor.
#[derive(Clone, Copy, Debug, PartialEq, Eq, Structural)]
pub struct CoordinateMapper {
    /// Screen units per simulation unit.
    pub scale_factor: i64,
}

impl CoordinateMapper {
    pub fn new(scale_factor: i64) -> (r: CoordinateMapper)
        ensures
            r.scale_factor == scale_factor,
    {
        CoordinateMapper { scale_factor }
    }

    /// The screen position of `p`: `p * scale_factor`.
    pub fn to_screen(&self, p: Vec2) -> (r: Vec2)
        requires
            in_range(vscale(p@, self.scale_factor as int)),
        ensures
            r@ == vscale(p@, self.scale_factor as int),
    {
        Vec2 { x: p.x * self.scale_factor, y: p.y * self.scale_factor }
    }

    /// The screen position of a sub-shape at local `offset` on a body at
    /// `position`, for a body that is not rotated: the offset is added before
    /// scaling.
    pub fn to_screen_offset(&self, position: Vec2, offset: Vec2) -> (r: Vec2)
        requires
            in_range(vadd(position@, offset@)),
            in_range(vscale(vadd(position@, offset@), self.scale_factor as int)),
        ensures
            r@ == vscale(vadd(position@, offset@), self.scale_factor as int),
    {
        self.to_screen(position.add(offset))
    }
}

/// Mapping to the screen is linear: the image of a sum is the sum of the
/// images, for every pair of positions and every factor.
pub proof fn lemma_to_screen_linear(p: (int, int), q: (int, int), s: int)
    ensures
        vscale(vadd(p, q), s) == vadd(vscale(p, s), vscale(q, s)),
        vscale(p, s) == (p.0 * s, p.1 * s),
{
    assert((p.0 + q.0) * s == p.0 * s + q.0 * s) by (nonlinear_arith);
    assert((p.1 + q.1) * s == p.1 * s + q.1 * s) by (nonlinear_arith);
}

} // verus!
