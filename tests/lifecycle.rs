use falling_bodies::body::{Body, BodyKind, Handle, Primitive, Shape, SpawnTemplate, SubShape};
use falling_bodies::geometry::{CoordinateMapper, Vec2};
use falling_bodies::recycle::{Axis, RecyclingRule, Side};
use falling_bodies::world::{Transform, World};

fn ball_template() -> SpawnTemplate {
    SpawnTemplate {
        primitive: Primitive::Circle { radius: 18 },
        restitution: 700,
        band_min: Vec2::new(-500, 2700),
        band_max: Vec2::new(500, 2700),
    }
}

fn floor_rule() -> RecyclingRule {
    RecyclingRule {
        axis: Axis::Vertical,
        side: Side::Below,
        threshold: -2700,
        template: ball_template(),
    }
}

fn ball_at(x: i64, y: i64) -> Body {
    Body {
        kind: BodyKind::DynamicFree,
        position: Vec2::new(x, y),
        rotation: 0,
        shape: Shape::Single(Primitive::Circle { radius: 18 }),
        restitution: 700,
    }
}

fn dynamic_count(w: &World) -> usize {
    w.snapshot().iter().filter(|s| s.kind != BodyKind::Static).count()
}

#[test]
fn to_screen_scales_each_coordinate() {
    let m = CoordinateMapper::new(100);
    assert_eq!(m.to_screen(Vec2::new(3, -2)), Vec2::new(300, -200));
    assert_eq!(m.to_screen(Vec2::new(0, 0)), Vec2::new(0, 0));
}

#[test]
fn to_screen_is_linear() {
    let m = CoordinateMapper::new(7);
    let p = Vec2::new(12, -5);
    let q = Vec2::new(-30, 44);
    assert_eq!(m.to_screen(p.add(q)), m.to_screen(p).add(m.to_screen(q)));
    assert_eq!(m.to_screen(p.add(q)), Vec2::new(-126, 273));
}

#[test]
fn sub_shape_offset_added_before_scaling() {
    let m = CoordinateMapper::new(10);
    assert_eq!(m.to_screen_offset(Vec2::new(1, 2), Vec2::new(3, -4)), Vec2::new(40, -20));
}

#[test]
fn spawn_position_follows_sample() {
    let t = ball_template();
    assert_eq!(t.spawn_position((7, 9)), Vec2::new(-493, 2700));
    assert_eq!(t.spawn_position((1000, 0)), Vec2::new(-500 + 1000 % 1001, 2700));
    assert_eq!(t.spawn_position((u64::MAX, u64::MAX)), Vec2::new(-485, 2700));
}

#[test]
fn spawned_body_comes_from_template() {
    let b = ball_template().spawn_body((20, 0));
    assert_eq!(b.kind, BodyKind::DynamicFree);
    assert_eq!(b.position, Vec2::new(-480, 2700));
    assert_eq!(b.rotation, 0);
    assert_eq!(b.restitution, 700);
    assert!(matches!(b.shape, Shape::Single(Primitive::Circle { radius: 18 })));
}

#[test]
fn removed_handle_is_rejected_and_never_reused() {
    let mut w = World::new(Vec2::new(0, -981));
    let a = w.insert(ball_at(0, 0));
    let b = w.insert(ball_at(1, 0));
    assert_eq!(a, Handle { index: 0, generation: 0 });
    assert_eq!(b, Handle { index: 1, generation: 0 });
    assert!(w.remove(a));
    assert!(!w.is_valid(a));
    assert!(w.get(a).is_none());
    assert!(!w.remove(a));
    let c = w.insert(ball_at(2, 0));
    assert_eq!(c, Handle { index: 0, generation: 1 });
    assert!(!w.is_valid(a));
    assert!(w.is_valid(c));
    assert_eq!(w.get(c).unwrap().position, Vec2::new(2, 0));
    assert_eq!(w.slot_count(), 2);
}

#[test]
fn insert_static_and_pinned_kinds() {
    let mut w = World::new(Vec2::new(0, -981));
    let parts = vec![SubShape {
        offset: Vec2::new(0, 0),
        rotation: 0,
        primitive: Primitive::Rect { half_width: 60, half_height: 3 },
    }];
    let s = w.insert_static(Shape::Single(Primitive::Rect { half_width: 100, half_height: 1 }), Vec2::new(0, -200), 0);
    let p = w.insert_pinned(Shape::Compound(parts), Vec2::new(0, 0), 0, 0);
    let d = w.insert_dynamic(&ball_template(), (3, 0));
    assert_eq!(w.get(s).unwrap().kind, BodyKind::Static);
    assert_eq!(w.get(p).unwrap().kind, BodyKind::DynamicPinnedRotation);
    assert_eq!(w.get(d).unwrap().kind, BodyKind::DynamicFree);
    assert_eq!(w.get(d).unwrap().position, Vec2::new(-497, 2700));
    assert_eq!(dynamic_count(&w), 2);
    assert_eq!(w.gravity(), Vec2::new(0, -981));
}

#[test]
fn snapshot_lists_live_bodies_in_slot_order() {
    let mut w = World::new(Vec2::new(0, -981));
    let a = w.insert(ball_at(0, 10));
    let b = w.insert(ball_at(5, 20));
    let c = w.insert(ball_at(9, 30));
    w.remove(b);
    let snap = w.snapshot();
    assert_eq!(snap.len(), 2);
    assert_eq!(snap[0].handle, a);
    assert_eq!(snap[0].position, Vec2::new(0, 10));
    assert_eq!(snap[1].handle, c);
    assert_eq!(snap[1].position, Vec2::new(9, 30));
}

#[test]
fn advance_leaves_static_bodies_unchanged() {
    let mut w = World::new(Vec2::new(0, -981));
    let s = w.insert_static(Shape::Single(Primitive::Rect { half_width: 100, half_height: 1 }), Vec2::new(0, -200), 5);
    let d = w.insert(ball_at(0, 200));
    let ts = vec![
        Transform { handle: s, position: Vec2::new(9, 9), rotation: 9 },
        Transform { handle: d, position: Vec2::new(0, 150), rotation: 3 },
    ];
    w.advance(&ts);
    assert_eq!(w.get(s).unwrap().position, Vec2::new(0, -200));
    assert_eq!(w.get(s).unwrap().rotation, 5);
    assert_eq!(w.get(d).unwrap().position, Vec2::new(0, 150));
    assert_eq!(w.get(d).unwrap().rotation, 3);
    assert_eq!(w.step_count(), 1);
}

#[test]
fn advance_keeps_pinned_rotation_and_ignores_stale_handles() {
    let mut w = World::new(Vec2::new(0, -981));
    let p = w.insert_pinned(Shape::Single(Primitive::Circle { radius: 5 }), Vec2::new(0, 0), 11, 0);
    let gone = w.insert(ball_at(0, 0));
    w.remove(gone);
    let ts = vec![
        Transform { handle: p, position: Vec2::new(1, 2), rotation: 99 },
        Transform { handle: gone, position: Vec2::new(7, 7), rotation: 7 },
    ];
    w.advance(&ts);
    assert_eq!(w.get(p).unwrap().position, Vec2::new(1, 2));
    assert_eq!(w.get(p).unwrap().rotation, 11);
    assert!(w.get(gone).is_none());
    assert_eq!(w.slot_count(), 2);
}

#[test]
fn ball_below_threshold_is_recycled_in_first_tick() {
    let mut w = World::new(Vec2::new(0, -981));
    let rule = floor_rule();
    let low = w.insert(ball_at(0, -3000));
    w.advance(&vec![]);
    assert_eq!(w.crossing_count(&rule), 1);
    let out = w.recycle(&rule, &vec![(100, 0)]);
    assert_eq!(out.len(), 1);
    assert_eq!(out[0].removed, low);
    assert!(!w.is_valid(low));
    assert!(w.is_valid(out[0].spawned));
    assert_eq!(out[0].spawned, Handle { index: 0, generation: 1 });
    let b = w.get(out[0].spawned).unwrap();
    assert_eq!(b.position, Vec2::new(-400, 2700));
    assert_eq!(b.kind, BodyKind::DynamicFree);
    assert_eq!(dynamic_count(&w), 1);
}

#[test]
fn recycling_keeps_population_and_spares_others() {
    let mut w = World::new(Vec2::new(0, -981));
    let rule = floor_rule();
    let floor = w.insert_static(Shape::Single(Primitive::Rect { half_width: 100, half_height: 1 }), Vec2::new(0, -5000), 0);
    let a = w.insert(ball_at(0, -2800));
    let on_line = w.insert(ball_at(0, -2700));
    let c = w.insert(ball_at(3, -2701));
    let high = w.insert(ball_at(4, 100));
    let before = dynamic_count(&w);
    assert_eq!(w.crossing_count(&rule), 2);
    let out = w.recycle(&rule, &vec![(0, 0), (1000, 0)]);
    assert_eq!(out.len(), 2);
    assert_eq!(out[0].removed, a);
    assert_eq!(out[1].removed, c);
    assert_eq!(w.get(out[0].spawned).unwrap().position, Vec2::new(-500, 2700));
    assert_eq!(w.get(out[1].spawned).unwrap().position, Vec2::new(500, 2700));
    assert!(w.is_valid(floor));
    assert!(w.is_valid(on_line));
    assert!(w.is_valid(high));
    assert!(!w.is_valid(a));
    assert!(!w.is_valid(c));
    assert_eq!(dynamic_count(&w), before);
    assert_eq!(w.crossing_count(&rule), 0);
}

#[test]
fn static_body_past_threshold_is_not_recycled() {
    let mut w = World::new(Vec2::new(0, -981));
    let rule = floor_rule();
    let s = w.insert_static(Shape::Single(Primitive::Circle { radius: 1 }), Vec2::new(0, -9000), 0);
    assert_eq!(w.crossing_count(&rule), 0);
    let out = w.recycle(&rule, &vec![]);
    assert!(out.is_empty());
    assert!(w.is_valid(s));
}

#[test]
fn horizontal_rule_above_threshold() {
    let mut w = World::new(Vec2::new(0, -981));
    let rule = RecyclingRule { axis: Axis::Horizontal, side: Side::Above, threshold: 10, template: ball_template() };
    let far = w.insert(ball_at(11, 0));
    let near = w.insert(ball_at(10, 0));
    let out = w.recycle(&rule, &vec![(5, 5)]);
    assert_eq!(out.len(), 1);
    assert_eq!(out[0].removed, far);
    assert!(w.is_valid(near));
}

#[test]
fn pinned_rotation_is_set_from_outside_only() {
    let mut w = World::new(Vec2::new(0, -981));
    let p = w.insert_pinned(Shape::Single(Primitive::Circle { radius: 5 }), Vec2::new(0, 0), 0, 0);
    let d = w.insert(ball_at(0, 0));
    assert!(w.set_pinned_rotation(p, 1500));
    assert_eq!(w.get(p).unwrap().rotation, 1500);
    assert!(!w.set_pinned_rotation(d, 1500));
    assert_eq!(w.get(d).unwrap().rotation, 0);
}

#[test]
fn populate_adds_one_body_per_sample() {
    let mut w = World::new(Vec2::new(0, -981));
    let keep = w.insert_static(Shape::Single(Primitive::Circle { radius: 1 }), Vec2::new(0, 0), 0);
    let gone = w.insert(ball_at(0, 0));
    w.remove(gone);
    let hs = w.populate(&ball_template(), &vec![(0, 0), (1, 0), (1000, 0)]);
    assert_eq!(hs.len(), 3);
    assert_eq!(hs[0], Handle { index: 1, generation: 1 });
    assert_eq!(hs[1], Handle { index: 2, generation: 0 });
    assert_eq!(w.get(hs[0]).unwrap().position, Vec2::new(-500, 2700));
    assert_eq!(w.get(hs[1]).unwrap().position, Vec2::new(-499, 2700));
    assert_eq!(w.get(hs[2]).unwrap().position, Vec2::new(500, 2700));
    assert!(w.is_valid(keep));
    assert_eq!(dynamic_count(&w), 3);
}
