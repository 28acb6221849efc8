use vstd::prelude::*;
use crate::body::{Body, BodyKind, Handle, SpawnTemplate, Shape};
use crate::geometry::Vec2;
use crate::recycle::{RecyclingRule, Recycled, count_crossing, fresh, lemma_spawn_in_band};

verus! {

/// One place of the store. A free slot whose generation is `u64::MAX` is
/// retired: it is never occupied again, so no handle can be reused.
pub struct Slot {
    pub generation: u64,
    pub body: Option<Body>,
}

/// The position and rotation that the physics engine computed for a body.
#[derive(Clone, Copy, Debug, PartialEq, Eq, Structural)]
pub struct Transform {
    pub handle: Handle,
    pub position: Vec2,
    pub rotation: i64,
}

/// A read-only view of one live body, for rendering and boundary checks.
#[derive(Clone, Copy, Debug, PartialEq, Eq, Structural)]
pub struct BodySnapshot {
    pub handle: Handle,
    pub kind: BodyKind,
    pub position: Vec2,
    pub rotation: i64,
}

/// Whether `h` refers to a live body of `s`.
pub open spec fn valid(s: Seq<Slot>, h: Handle) -> bool {
    &&& 0 <= h.index < s.len()
    &&& s[h.index as int].body is Some
    &&& s[h.index as int].generation == h.generation
}

/// The body that a valid handle refers to.
pub open spec fn body_at(s: Seq<Slot>, h: Handle) -> Body {
    s[h.index as int].body->Some_0
}

/// Whether the slot holds a dynamic body.
pub open spec fn holds_dynamic(slot: Slot) -> bool {
    slot.body is Some && slot.body->Some_0.kind.dynamic()
}

/// The number of dynamic bodies in `s`.
pub open spec fn count_dynamic(s: Seq<Slot>) -> nat
    decreases s.len(),
{
    if s.len() == 0 {
        0
    } else {
        count_dynamic(s.drop_last()) + if holds_dynamic(s.last()) {
            1nat
        } else {
            0nat
        }
    }
}

/// The body `b` after the engine reported `t` for it. A body with pinned
/// rotation keeps its rotation.
pub open spec fn moved(b: Body, t: Transform) -> Body {
    Body {
        kind: b.kind,
        position: t.position,
        rotation: if b.kind == BodyKind::DynamicFree {
            t.rotation
        } else {
            b.rotation
        },
        shape: b.shape,
        restitution: b.restitution,
    }
}

/// The store after applying one reported transform: only a valid handle of a
/// dynamic body is affected.
pub open spec fn apply_transform(s: Seq<Slot>, t: Transform) -> Seq<Slot> {
    if valid(s, t.handle) && body_at(s, t.handle).kind.dynamic() {
        s.update(
            t.handle.index as int,
            Slot { generation: t.handle.generation, body: Some(moved(body_at(s, t.handle), t)) },
        )
    } else {
        s
    }
}

/// The store after applying the reported transforms in order.
pub open spec fn apply_transforms(s: Seq<Slot>, ts: Seq<Transform>) -> Seq<Slot>
    decreases ts.len(),
{
    if ts.len() == 0 {
        s
    } else {
        apply_transform(apply_transforms(s, ts.drop_last()), ts.last())
    }
}

pub proof fn lemma_count_dynamic_push(s: Seq<Slot>, v: Slot)
    ensures
        count_dynamic(s.push(v)) == count_dynamic(s) + if holds_dynamic(v) {
            1nat
        } else {
            0nat
        },
{
    assert(s.push(v).drop_last() =~= s);
}

pub proof fn lemma_count_dynamic_update(s: Seq<Slot>, i: int, v: Slot)
    requires
        0 <= i < s.len(),
    ensures
        count_dynamic(s.update(i, v)) + (if holds_dynamic(s[i]) {
            1nat
        } else {
            0nat
        }) == count_dynamic(s) + if holds_dynamic(v) {
            1nat
        } else {
            0nat
        },
    decreases s.len(),
{
    if i == s.len() - 1 {
        assert(s.update(i, v).drop_last() =~= s.drop_last());
    } else {
        assert(s.update(i, v).drop_last() =~= s.drop_last().update(i, v));
        lemma_count_dynamic_update(s.drop_last(), i, v);
    }
}

/// Applying the engine's transforms never changes a Static body, nor which
/// slots are live and with what generation and kind.
pub proof fn lemma_transforms_keep_static(s: Seq<Slot>, ts: Seq<Transform>, i: int)
    requires
        0 <= i < s.len(),
    ensures
        apply_transforms(s, ts).len() == s.len(),
        apply_transforms(s, ts)[i].generation == s[i].generation,
        apply_transforms(s, ts)[i].body is Some <==> s[i].body is Some,
        s[i].body is Some ==> apply_transforms(s, ts)[i].body->Some_0.kind
            == s[i].body->Some_0.kind,
        s[i].body is Some && s[i].body->Some_0.kind == BodyKind::Static ==> apply_transforms(
            s,
            ts,
        )[i] == s[i],
    decreases ts.len(),
{
    if ts.len() > 0 {
        lemma_transforms_keep_static(s, ts.drop_last(), i);
    }
}

/// Applying the engine's transforms keeps the number of dynamic bodies.
pub proof fn lemma_transforms_keep_population(s: Seq<Slot>, ts: Seq<Transform>)
    ensures
        count_dynamic(apply_transforms(s, ts)) == count_dynamic(s),
    decreases ts.len(),
{
    if ts.len() > 0 {
        let p = apply_transforms(s, ts.drop_last());
        lemma_transforms_keep_population(s, ts.drop_last());
        let t = ts.last();
        if valid(p, t.handle) && body_at(p, t.handle).kind.dynamic() {
            lemma_count_dynamic_update(
                p,
                t.handle.index as int,
                Slot { generation: t.handle.generation, body: Some(moved(body_at(p, t.handle), t)) },
            );
        }
    }
}

/// The store of bodies, with gravity and a step counter.
pub struct World {
    pub(crate) slots: Vec<Slot>,
    pub(crate) gravity: Vec2,
    pub(crate) steps: u64,
}

impl View for World {
    type V = Seq<Slot>;

    closed spec fn view(&self) -> Seq<Slot> {
        self.slots@
    }
}

impl World {
    pub closed spec fn step_count_spec(&self) -> nat {
        self.steps as nat
    }

    pub closed spec fn gravity_spec(&self) -> Vec2 {
        self.gravity
    }

    /// An empty world with the given gravity.
    pub fn new(gravity: Vec2) -> (w: World)
        ensures
            w@ == Seq::<Slot>::empty(),
            w.gravity_spec() == gravity,
            w.step_count_spec() == 0,
    {
        World { slots: Vec::new(), gravity, steps: 0 }
    }

    pub fn gravity(&self) -> (g: Vec2)
        ensures
            g == self.gravity_spec(),
    {
        self.gravity
    }

    /// How many steps have been applied.
    pub fn step_count(&self) -> (n: u64)
        ensures
            n == self.step_count_spec(),
    {
        self.steps
    }

    /// The number of slots, live or free.
    pub fn slot_count(&self) -> (n: usize)
        ensures
            n == self@.len(),
    {
        self.slots.len()
    }

    pub fn is_valid(&self, h: Handle) -> (r: bool)
        ensures
            r == valid(self@, h),
    {
        h.index < self.slots.len() && self.slots[h.index].generation == h.generation
            && self.slots[h.index].body.is_some()
    }

    /// The body behind `h`, or `None` for a stale or foreign handle.
    pub fn get(&self, h: Handle) -> (r: Option<&Body>)
        ensures
            r is Some <==> valid(self@, h),
            r is Some ==> *r->Some_0 == body_at(self@, h),
    {
        if h.index < self.slots.len() && self.slots[h.index].generation == h.generation {
            match &self.slots[h.index].body {
                Some(b) => Some(b),
                None => None,
            }
        } else {
            None
        }
    }

    /// Puts `body` into the first free slot that is not retired, or into a
    /// new slot at the end. The handle is fresh: its slot held no body and
    /// already had that generation, or is new.
    pub fn insert(&mut self, body: Body) -> (h: Handle)
        requires
            old(self)@.len() < usize::MAX,
        ensures
            h.index <= old(self)@.len(),
            h.index < old(self)@.len() ==> {
                &&& old(self)@[h.index as int].body is None
                &&& old(self)@[h.index as int].generation == h.generation
                &&& h.generation < u64::MAX
                &&& final(self)@ == old(self)@.update(
                    h.index as int,
                    Slot { generation: h.generation, body: Some(body) },
                )
            },
            h.index == old(self)@.len() ==> {
                &&& h.generation == 0
                &&& final(self)@ == old(self)@.push(Slot { generation: 0, body: Some(body) })
            },
            valid(final(self)@, h),
            body_at(final(self)@, h) == body,
            final(self).gravity_spec() == old(self).gravity_spec(),
            final(self).step_count_spec() == old(self).step_count_spec(),
    {
        let n = self.slots.len();
        let mut i: usize = 0;
        while i < n
            invariant
                n == self.slots@.len(),
                self.slots@ == old(self).slots@,
                self.gravity == old(self).gravity,
                self.steps == old(self).steps,
                i <= n,
            decreases n - i,
        {
            let g = self.slots[i].generation;
            if self.slots[i].body.is_none() && g < u64::MAX {
                self.slots.set(i, Slot { generation: g, body: Some(body) });
                return Handle { index: i, generation: g };
            }
            i += 1;
        }
        self.slots.push(Slot { generation: 0, body: Some(body) });
        Handle { index: n, generation: 0 }
    }

    /// Adds an immovable body.
    pub fn insert_static(&mut self, shape: Shape, position: Vec2, rotation: i64) -> (h: Handle)
        requires
            old(self)@.len() < usize::MAX,
        ensures
            valid(final(self)@, h),
            body_at(final(self)@, h) == (Body {
                kind: BodyKind::Static,
                position,
                rotation,
                shape,
                restitution: 0,
            }),
            final(self)@.len() <= old(self)@.len() + 1,
            h.index >= old(self)@.len() || old(self)@[h.index as int].body is None,
            forall|g: Handle| valid(old(self)@, g) ==> valid(final(self)@, g) && body_at(final(self)@, g) == body_at(old(self)@, g),
    {
        self.insert(Body { kind: BodyKind::Static, position, rotation, shape, restitution: 0 })
    }

    /// Adds a body that collisions translate but whose rotation is set from
    /// outside.
    pub fn insert_pinned(&mut self, shape: Shape, position: Vec2, rotation: i64, restitution: u32) -> (h: Handle)
        requires
            old(self)@.len() < usize::MAX,
        ensures
            valid(final(self)@, h),
            body_at(final(self)@, h) == (Body {
                kind: BodyKind::DynamicPinnedRotation,
                position,
                rotation,
                shape,
                restitution,
            }),
            final(self)@.len() <= old(self)@.len() + 1,
            h.index >= old(self)@.len() || old(self)@[h.index as int].body is None,
            forall|g: Handle| valid(old(self)@, g) ==> valid(final(self)@, g) && body_at(final(self)@, g) == body_at(old(self)@, g),
    {
        self.insert(Body { kind: BodyKind::DynamicPinnedRotation, position, rotation, shape, restitution })
    }

    /// Adds a free dynamic body made from `template`, placed by the random
    /// sample pair `sample`.
    pub fn insert_dynamic(&mut self, template: &SpawnTemplate, sample: (u64, u64)) -> (h: Handle)
        requires
            old(self)@.len() < usize::MAX,
            template.wf(),
        ensures
            valid(final(self)@, h),
            template.spawns(sample, body_at(final(self)@, h)),
            final(self)@.len() <= old(self)@.len() + 1,
            h.index >= old(self)@.len() || old(self)@[h.index as int].body is None,
            forall|g: Handle| valid(old(self)@, g) ==> valid(final(self)@, g) && body_at(final(self)@, g) == body_at(old(self)@, g),
            count_dynamic(final(self)@) == count_dynamic(old(self)@) + 1,
    {
        let b = template.spawn_body(sample);
        let ghost s = self@;
        let h = self.insert(b);
        proof {
            let v = Slot { generation: h.generation, body: Some(b) };
            if h.index < s.len() {
                lemma_count_dynamic_update(s, h.index as int, v);
            } else {
                lemma_count_dynamic_push(s, v);
            }
        }
        h
    }

    /// The initial population: one free dynamic body made from `template`
    /// for each sample pair, in order. Bodies already present are kept.
    pub fn populate(&mut self, template: &SpawnTemplate, samples: &Vec<(u64, u64)>) -> (r: Vec<Handle>)
        requires
            template.wf(),
            old(self)@.len() + samples@.len() <= usize::MAX,
        ensures
            r@.len() == samples@.len(),
            forall|k: int|
                0 <= k < r@.len() ==> valid(final(self)@, #[trigger] r@[k]) && template.spawns(
                    samples@[k],
                    body_at(final(self)@, r@[k]),
                ),
            forall|k1: int, k2: int| 0 <= k1 < k2 < r@.len() ==> r@[k1].index != r@[k2].index,
            forall|g: Handle| valid(old(self)@, g) ==> valid(final(self)@, g) && body_at(final(self)@, g) == body_at(old(self)@, g),
            count_dynamic(final(self)@) == count_dynamic(old(self)@) + samples@.len(),
            final(self)@.len() <= old(self)@.len() + samples@.len(),
    {
        let mut r: Vec<Handle> = Vec::new();
        let mut i: usize = 0;
        while i < samples.len()
            invariant
                template.wf(),
                i <= samples@.len(),
                old(self)@.len() + samples@.len() <= usize::MAX,
                self@.len() <= old(self)@.len() + i,
                r@.len() == i,
                forall|k: int|
                    0 <= k < r@.len() ==> valid(self@, #[trigger] r@[k]) && template.spawns(
                        samples@[k],
                        body_at(self@, r@[k]),
                    ),
                forall|k1: int, k2: int| 0 <= k1 < k2 < r@.len() ==> r@[k1].index != r@[k2].index,
                forall|g: Handle| valid(old(self)@, g) ==> valid(self@, g) && body_at(self@, g) == body_at(old(self)@, g),
                count_dynamic(self@) == count_dynamic(old(self)@) + i,
            decreases samples@.len() - i,
        {
            let ghost r0 = r@;
            let h = self.insert_dynamic(template, samples[i]);
            r.push(h);
            proof {
                assert forall|k: int| 0 <= k < r@.len() implies valid(self@, #[trigger] r@[k])
                    && template.spawns(samples@[k], body_at(self@, r@[k])) by {
                    if k < i {
                        assert(r@[k] == r0[k]);
                    }
                }
                assert forall|k1: int, k2: int| 0 <= k1 < k2 < r@.len() implies r@[k1].index != r@[k2].index by {
                    if k2 == i {
                        assert(r@[k1] == r0[k1]);
                    } else {
                        assert(r@[k1] == r0[k1]);
                        assert(r@[k2] == r0[k2]);
                    }
                }
            }
            i += 1;
        }
        r
    }

    /// Removes the body behind `h` and invalidates `h` for good. Returns
    /// `false`, changing nothing, when `h` is stale or foreign.
    pub fn remove(&mut self, h: Handle) -> (r: bool)
        ensures
            r == valid(old(self)@, h),
            r ==> final(self)@ == old(self)@.update(
                h.index as int,
                Slot {
                    generation: if h.generation < u64::MAX {
                        (h.generation + 1) as u64
                    } else {
                        h.generation
                    },
                    body: None,
                },
            ),
            !r ==> final(self)@ == old(self)@,
            !valid(final(self)@, h),
            final(self).gravity_spec() == old(self).gravity_spec(),
            final(self).step_count_spec() == old(self).step_count_spec(),
    {
        if !self.is_valid(h) {
            return false;
        }
        let g = if h.generation < u64::MAX {
            h.generation + 1
        } else {
            h.generation
        };
        self.slots.set(h.index, Slot { generation: g, body: None });
        true
    }

    /// The live bodies in slot order.
    pub fn snapshot(&self) -> (r: Vec<BodySnapshot>)
        ensures
            forall|k: int|
                0 <= k < r@.len() ==> {
                    &&& valid(self@, #[trigger] r@[k].handle)
                    &&& r@[k].kind == body_at(self@, r@[k].handle).kind
                    &&& r@[k].position == body_at(self@, r@[k].handle).position
                    &&& r@[k].rotation == body_at(self@, r@[k].handle).rotation
                },
            forall|k1: int, k2: int|
                0 <= k1 < k2 < r@.len() ==> r@[k1].handle.index < r@[k2].handle.index,
            forall|i: int|
                0 <= i < self@.len() && (#[trigger] self@[i]).body is Some ==> exists|k: int|
                    0 <= k < r@.len() && r@[k].handle.index == i,
    {
        let mut r: Vec<BodySnapshot> = Vec::new();
        let n = self.slots.len();
        let mut i: usize = 0;
        while i < n
            invariant
                n == self@.len(),
                i <= n,
                forall|k: int|
                    0 <= k < r@.len() ==> {
                        &&& valid(self@, #[trigger] r@[k].handle)
                        &&& r@[k].handle.index < i
                        &&& r@[k].kind == body_at(self@, r@[k].handle).kind
                        &&& r@[k].position == body_at(self@, r@[k].handle).position
                        &&& r@[k].rotation == body_at(self@, r@[k].handle).rotation
                    },
                forall|k1: int, k2: int|
                    0 <= k1 < k2 < r@.len() ==> r@[k1].handle.index < r@[k2].handle.index,
                forall|j: int|
                    0 <= j < i && (#[trigger] self@[j]).body is Some ==> exists|k: int|
                        0 <= k < r@.len() && r@[k].handle.index == j,
            decreases n - i,
        {
            match &self.slots[i].body {
                Some(b) => {
                    let s = BodySnapshot {
                        handle: Handle { index: i, generation: self.slots[i].generation },
                        kind: b.kind,
                        position: b.position,
                        rotation: b.rotation,
                    };
                    let ghost r0 = r@;
                    r.push(s);
                    proof {
                        assert forall|j: int|
                            0 <= j <= i && (#[trigger] self@[j]).body is Some implies exists|k: int|
                                0 <= k < r@.len() && r@[k].handle.index == j by {
                            if j < i {
                                let k = choose|k: int| 0 <= k < r0.len() && r0[k].handle.index == j;
                                assert(r@[k] == r0[k]);
                            } else {
                                assert(r@[r@.len() - 1].handle.index == j);
                            }
                        }
                    }
                },
                None => {},
            }
            i += 1;
        }
        r
    }

    /// Sets the rotation of a body whose rotation is pinned, that is driven
    /// from outside rather than by collisions. Returns `false`, changing
    /// nothing, for any other handle.
    pub fn set_pinned_rotation(&mut self, h: Handle, rotation: i64) -> (r: bool)
        ensures
            r == (valid(old(self)@, h) && body_at(old(self)@, h).kind
                == BodyKind::DynamicPinnedRotation),
            r ==> final(self)@ == old(self)@.update(
                h.index as int,
                Slot {
                    generation: h.generation,
                    body: Some(Body { rotation, ..body_at(old(self)@, h) }),
                },
            ),
            !r ==> final(self)@ == old(self)@,
            final(self).gravity_spec() == old(self).gravity_spec(),
            final(self).step_count_spec() == old(self).step_count_spec(),
    {
        let i = h.index;
        if i < self.slots.len() && self.slots[i].generation == h.generation {
            let slot = &mut self.slots[i];
            match &mut slot.body {
                Some(b) => {
                    if b.kind == BodyKind::DynamicPinnedRotation {
                        b.rotation = rotation;
                        return true;
                    }
                },
                None => {},
            }
        }
        false
    }

    /// Applies one transform reported by the engine.
    fn apply_one(&mut self, t: Transform)
        ensures
            final(self)@ == apply_transform(old(self)@, t),
            final(self).gravity_spec() == old(self).gravity_spec(),
            final(self).step_count_spec() == old(self).step_count_spec(),
    {
        let i = t.handle.index;
        if i < self.slots.len() && self.slots[i].generation == t.handle.generation {
            let slot = &mut self.slots[i];
            match &mut slot.body {
                Some(b) => {
                    if b.kind.is_dynamic() {
                        b.position = t.position;
                        if b.kind == BodyKind::DynamicFree {
                            b.rotation = t.rotation;
                        }
                    }
                },
                None => {},
            }
        }
    }

    /// Records one step of the physics engine: the transforms it computed
    /// are applied in order, only to valid handles of dynamic bodies, and the
    /// step counter advances.
    pub fn advance(&mut self, transforms: &Vec<Transform>)
        requires
            old(self).step_count_spec() < u64::MAX,
        ensures
            final(self)@ == apply_transforms(old(self)@, transforms@),
            final(self).step_count_spec() == old(self).step_count_spec() + 1,
            final(self).gravity_spec() == old(self).gravity_spec(),
            count_dynamic(final(self)@) == count_dynamic(old(self)@),
            forall|i: int|
                0 <= i < old(self)@.len() && (#[trigger] old(self)@[i]).body is Some
                    && old(self)@[i].body->Some_0.kind == BodyKind::Static ==> final(self)@[i]
                    == old(self)@[i],
    {
        let mut k: usize = 0;
        while k < transforms.len()
            invariant
                k <= transforms@.len(),
                self@ == apply_transforms(old(self)@, transforms@.take(k as int)),
                self.gravity == old(self).gravity,
                self.steps == old(self).steps,
            decreases transforms@.len() - k,
        {
            proof {
                assert(transforms@.take(k + 1).drop_last() =~= transforms@.take(k as int));
            }
            self.apply_one(transforms[k]);
            k += 1;
        }
        proof {
            assert(transforms@.take(k as int) =~= transforms@);
            lemma_transforms_keep_population(old(self)@, transforms@);
            assert forall|i: int|
                0 <= i < old(self)@.len() && (#[trigger] old(self)@[i]).body is Some
                    && old(self)@[i].body->Some_0.kind == BodyKind::Static implies self@[i]
                    == old(self)@[i] by {
                lemma_transforms_keep_static(old(self)@, transforms@, i);
            }
        }
        self.steps = self.steps + 1;
    }
}

/// One entry of a recycling pass, between the store `s0` before it and `s`
/// after it: the removed handle was live and crossed, is dead now, and the
/// spawned one is live, fresh and made from the template.
spec fn replaced(s0: Seq<Slot>, s: Seq<Slot>, rule: RecyclingRule, sample: (u64, u64), rc: Recycled, n: int) -> bool {
    &&& valid(s0, rc.removed)
    &&& rule.crosses(s0[rc.removed.index as int])
    &&& !valid(s, rc.removed)
    &&& valid(s, rc.spawned)
    &&& rule.template.spawns(sample, body_at(s, rc.spawned))
    &&& fresh(s0, rc.spawned)
    &&& (rc.spawned.index == rc.removed.index || rc.spawned.index >= n)
}

impl World {
    fn slot_crosses(&self, rule: &RecyclingRule, i: usize) -> (r: bool)
        requires
            i < self@.len(),
        ensures
            r == rule.crosses(self@[i as int]),
    {
        match &self.slots[i].body {
            Some(b) => b.kind.is_dynamic() && rule.is_past(b.position),
            None => false,
        }
    }

    /// How many bodies the next recycling pass under `rule` replaces.
    pub fn crossing_count(&self, rule: &RecyclingRule) -> (c: usize)
        ensures
            c == count_crossing(self@, *rule),
    {
        let n = self.slots.len();
        let mut c: usize = 0;
        let mut i: usize = 0;
        proof {
            assert(self@.subrange(0, n as int) =~= self@);
        }
        while i < n
            invariant
                n == self@.len(),
                i <= n,
                c <= i,
                c + count_crossing(self@.subrange(i as int, n as int), *rule) == count_crossing(
                    self@,
                    *rule,
                ),
            decreases n - i,
        {
            proof {
                assert(self@.subrange(i as int, n as int).subrange(1, n - i) =~= self@.subrange(
                    i + 1,
                    n as int,
                ));
            }
            if self.slot_crosses(rule, i) {
                c += 1;
            }
            i += 1;
        }
        proof {
            assert(self@.subrange(0, n as int) =~= self@);
        }
        c
    }

    /// The recycling pass. Every dynamic body past the rule's threshold is
    /// removed, its handle invalidated, and exactly one replacement is made
    /// from the rule's template, the `k`-th one placed by `samples[k]`. A
    /// replacement takes the freed slot under the next generation, or a new
    /// slot at the end when the freed slot's generation is exhausted. All
    /// other slots are left as they were, so the number of dynamic bodies is
    /// kept.
    #[verifier::rlimit(100)]
    pub fn recycle(&mut self, rule: &RecyclingRule, samples: &Vec<(u64, u64)>) -> (r: Vec<Recycled>)
        requires
            rule.template.wf(),
            samples@.len() >= count_crossing(old(self)@, *rule),
            old(self)@.len() + count_crossing(old(self)@, *rule) <= usize::MAX,
        ensures
            r@.len() == count_crossing(old(self)@, *rule),
            final(self)@.len() >= old(self)@.len(),
            forall|k: int|
                0 <= k < r@.len() ==> {
                    &&& valid(old(self)@, #[trigger] r@[k].removed)
                    &&& rule.crosses(old(self)@[r@[k].removed.index as int])
                    &&& !valid(final(self)@, r@[k].removed)
                    &&& valid(final(self)@, r@[k].spawned)
                    &&& rule.template.spawns(samples@[k], body_at(final(self)@, r@[k].spawned))
                    &&& rule.template.in_band(body_at(final(self)@, r@[k].spawned).position)
                    &&& fresh(old(self)@, r@[k].spawned)
                },
            forall|k1: int, k2: int|
                0 <= k1 < k2 < r@.len() ==> r@[k1].removed.index < r@[k2].removed.index,
            forall|i: int|
                0 <= i < old(self)@.len() && !rule.crosses(#[trigger] old(self)@[i])
                    ==> final(self)@[i] == old(self)@[i],
            forall|i: int|
                0 <= i < old(self)@.len() && rule.crosses(#[trigger] old(self)@[i])
                    ==> exists|k: int| 0 <= k < r@.len() && r@[k].removed.index == i,
            forall|i: int|
                old(self)@.len() <= i < final(self)@.len() ==> (#[trigger] final(self)@[i]).body is Some
                    && exists|k: int| 0 <= k < r@.len() && r@[k].spawned.index == i,
            count_dynamic(final(self)@) == count_dynamic(old(self)@),
            final(self).gravity_spec() == old(self).gravity_spec(),
            final(self).step_count_spec() == old(self).step_count_spec(),
    {
        let ghost s0 = self@;
        let ghost total = count_crossing(s0, *rule);
        let n = self.slots.len();
        let mut r: Vec<Recycled> = Vec::new();
        let mut i: usize = 0;
        proof {
            assert(s0.subrange(0, n as int) =~= s0);
        }
        while i < n
            invariant
                n == s0.len(),
                s0 == old(self)@,
                total == count_crossing(s0, *rule),
                rule.template.wf(),
                samples@.len() >= total,
                n + total <= usize::MAX,
                i <= n,
                n <= self@.len() <= n + r@.len(),
                r@.len() + count_crossing(s0.subrange(i as int, n as int), *rule) == total,
                forall|j: int| i <= j < n ==> self@[j] == s0[j],
                forall|j: int|
                    0 <= j < i && !rule.crosses(#[trigger] s0[j]) ==> self@[j] == s0[j],
                forall|j: int|
                    0 <= j < i && rule.crosses(#[trigger] s0[j]) ==> exists|k: int|
                        0 <= k < r@.len() && r@[k].removed.index == j,
                forall|k: int|
                    0 <= k < r@.len() ==> r@[k].removed.index < i && replaced(
                        s0,
                        self@,
                        *rule,
                        samples@[k],
                        #[trigger] r@[k],
                        n as int,
                    ),
                forall|k1: int, k2: int|
                    0 <= k1 < k2 < r@.len() ==> r@[k1].removed.index < r@[k2].removed.index,
                forall|j: int|
                    n <= j < self@.len() ==> (#[trigger] self@[j]).body is Some && exists|k: int|
                        0 <= k < r@.len() && r@[k].spawned.index == j,
                count_dynamic(self@) == count_dynamic(s0),
                self.gravity == old(self).gravity,
                self.steps == old(self).steps,
            decreases n - i,
        {
            proof {
                assert(s0.subrange(i as int, n as int).subrange(1, n - i) =~= s0.subrange(
                    i + 1,
                    n as int,
                ));
            }
            if self.slot_crosses(rule, i) {
                let ghost s1 = self@;
                let ghost r0 = r@;
                let k = r.len();
                let g = self.slots[i].generation;
                let removed = Handle { index: i, generation: g };
                let body = rule.template.spawn_body(samples[k]);
                let spawned;
                if g < u64::MAX {
                    let v = Slot { generation: g + 1, body: Some(body) };
                    proof {
                        lemma_count_dynamic_update(s1, i as int, v);
                    }
                    self.slots.set(i, v);
                    spawned = Handle { index: i, generation: g + 1 };
                } else {
                    let v = Slot { generation: g, body: None };
                    proof {
                        lemma_count_dynamic_update(s1, i as int, v);
                    }
                    self.slots.set(i, v);
                    let m = self.slots.len();
                    let w = Slot { generation: 0, body: Some(body) };
                    proof {
                        lemma_count_dynamic_push(self@, w);
                    }
                    self.slots.push(w);
                    spawned = Handle { index: m, generation: 0 };
                }
                r.push(Recycled { removed, spawned });
                proof {
                    assert(r@[k as int] == (Recycled { removed, spawned }));
                    assert forall|kk: int| 0 <= kk < k implies r@[kk] == r0[kk] by {}
                    assert forall|kk: int| 0 <= kk < r@.len() implies r@[kk].removed.index
                        <= i && replaced(s0, self@, *rule, samples@[kk], #[trigger] r@[kk], n as int) by {
                        if kk < k {
                            assert(r@[kk] == r0[kk]);
                            let a = r0[kk].removed.index as int;
                            let b = r0[kk].spawned.index as int;
                            assert(replaced(s0, s1, *rule, samples@[kk], r0[kk], n as int));
                            assert(self@[a] == s1[a]);
                            assert(self@[b] == s1[b]);
                        }
                    }
                    assert forall|j: int|
                        0 <= j <= i && rule.crosses(#[trigger] s0[j]) implies exists|kk: int|
                            0 <= kk < r@.len() && r@[kk].removed.index == j by {
                        if j < i {
                            let kk = choose|kk: int|
                                0 <= kk < r0.len() && r0[kk].removed.index == j;
                            assert(r@[kk] == r0[kk]);
                        } else {
                            assert(r@[k as int].removed.index == j);
                        }
                    }
                    assert forall|j: int| n <= j < self@.len() implies (#[trigger] self@[j]).body is Some
                        && exists|kk: int| 0 <= kk < r@.len() && r@[kk].spawned.index == j by {
                        if j < s1.len() {
                            assert(s1[j].body is Some);
                            let kk = choose|kk: int|
                                0 <= kk < r0.len() && r0[kk].spawned.index == j;
                            assert(r@[kk] == r0[kk]);
                        } else {
                            assert(r@[k as int].spawned.index == j);
                        }
                    }
                }
            }
            i += 1;
        }
        proof {
            assert(s0.subrange(n as int, n as int) =~= Seq::<Slot>::empty());
            assert forall|k: int| 0 <= k < r@.len() implies rule.template.in_band(
                body_at(self@, #[trigger] r@[k].spawned).position,
            ) by {
                lemma_spawn_in_band(rule.template, samples@[k]);
            }
        }
        r
    }
}

} // verus!
