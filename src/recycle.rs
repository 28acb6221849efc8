use vstd::prelude::*;
use crate::body::{Handle, SpawnTemplate};
use crate::geometry::Vec2;
use crate::world::{Slot, holds_dynamic};

verus! {

/// The coordinate that a recycling rule watches.
#[derive(Clone, Copy, Debug, PartialEq, Eq, Structural)]
pub enum Axis {
    Vertical,
    Horizontal,
}

/// On which side of the threshold a body has left the visible area.
#[derive(Clone, Copy, Debug, PartialEq, Eq, Structural)]
pub enum Side {
    Below,
    Above,
}

/// Dynamic bodies strictly past `threshold` on `axis` are replaced by bodies
/// made from `template`.
#[derive(Clone, Copy, Debug, PartialEq, Eq, Structural)]
pub struct RecyclingRule {
    pub axis: Axis,
    pub side: Side,
    pub threshold: i64,
    pub template: SpawnTemplate,
}

/// One replacement: the handle that was invalidated and the one that took
/// its place.
#[derive(Clone, Copy, Debug, PartialEq, Eq, Structural)]
pub struct Recycled {
    pub removed: Handle,
    pub spawned: Handle,
}

/// Whether `h` differs from every handle that `s` could have issued.
pub open spec fn fresh(s: Seq<Slot>, h: Handle) -> bool {
    h.index >= s.len() || h.generation > s[h.index as int].generation
}

impl RecyclingRule {
    /// Whether `p` is strictly past the threshold; a position exactly on it
    /// has not crossed.
    pub open spec fn past(self, p: Vec2) -> bool {
        let c = match self.axis {
            Axis::Vertical => p.y,
            Axis::Horizontal => p.x,
        };
        match self.side {
            Side::Below => c < self.threshold,
            Side::Above => c > self.threshold,
        }
    }

    /// Whether the slot holds a dynamic body that has crossed.
    pub open spec fn crosses(self, slot: Slot) -> bool {
        holds_dynamic(slot) && self.past(slot.body->Some_0.position)
    }

    pub fn is_past(&self, p: Vec2) -> (r: bool)
        ensures
            r == self.past(p),
    {
        let c = match self.axis {
            Axis::Vertical => p.y,
            Axis::Horizontal => p.x,
        };
        match self.side {
            Side::Below => c < self.threshold,
            Side::Above => c > self.threshold,
        }
    }
}

/// The number of slots of `s` whose body has crossed under `rule`.
pub open spec fn count_crossing(s: Seq<Slot>, rule: RecyclingRule) -> nat
    decreases s.len(),
{
    if s.len() == 0 {
        0
    } else {
        (if rule.crosses(s[0]) {
            1nat
        } else {
            0nat
        }) + count_crossing(s.subrange(1, s.len() as int), rule)
    }
}

/// Every body that a template spawns lies inside the template's band.
pub proof fn lemma_spawn_in_band(t: SpawnTemplate, s: (u64, u64))
    requires
        t.wf(),
    ensures
        t.band_min.x <= t.position_for(s).0 <= t.band_max.x,
        t.band_min.y <= t.position_for(s).1 <= t.band_max.y,
{
    vstd::arithmetic::div_mod::lemma_mod_bound(s.0 as int, t.band_max.x - t.band_min.x + 1);
    vstd::arithmetic::div_mod::lemma_mod_bound(s.1 as int, t.band_max.y - t.band_min.y + 1);
}

} // verus!
