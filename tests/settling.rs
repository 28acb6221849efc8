use falling_bodies::body::{Body, BodyKind, Primitive, Shape};
use falling_bodies::geometry::Vec2;
use falling_bodies::world::{Transform, World};
use rapier2d::na::Vector2;
use rapier2d::prelude::{
    BroadPhase, CCDSolver, ColliderBuilder, ColliderSet, IntegrationParameters, IslandManager,
    JointSet, NarrowPhase, PhysicsPipeline, RigidBodyBuilder, RigidBodySet,
};

const UNIT: f32 = 10_000.0;

fn fixed(v: f32) -> i64 {
    (v * UNIT).round() as i64
}

#[test]
fn ball_comes_to_rest_on_floor() {
    let mut world = World::new(Vec2::new(0, fixed(-9.81)));
    let floor_half_height = 0.01f32;
    let radius = 0.1f32;
    world.insert_static(
        Shape::Single(Primitive::Rect { half_width: fixed(1.0), half_height: fixed(floor_half_height) }),
        Vec2::new(0, fixed(-2.0)),
        0,
    );
    let ball = world.insert(Body {
        kind: BodyKind::DynamicFree,
        position: Vec2::new(0, fixed(2.0)),
        rotation: 0,
        shape: Shape::Single(Primitive::Circle { radius: fixed(radius) }),
        restitution: 700,
    });

    let mut bodies = RigidBodySet::new();
    let mut colliders = ColliderSet::new();
    colliders.insert(ColliderBuilder::cuboid(1.0, floor_half_height).translation(Vector2::new(0.0, -2.0)).build());
    let rb = bodies.insert(RigidBodyBuilder::new_dynamic().translation(Vector2::new(0.0, 2.0)).build());
    colliders.insert_with_parent(ColliderBuilder::ball(radius).restitution(0.7).build(), rb, &mut bodies);

    let gravity = Vector2::new(0.0, -9.81);
    let params = IntegrationParameters { dt: 1.0 / 60.0, ..Default::default() };
    let mut islands = IslandManager::new();
    let mut broad = BroadPhase::new();
    let mut narrow = NarrowPhase::new();
    let mut joints = JointSet::new();
    let mut ccd = CCDSolver::new();
    let mut pipeline = PhysicsPipeline::new();

    let rest = fixed(-2.0 + floor_half_height + radius);
    let tolerance = fixed(0.01);
    let mut run: u32 = 0;
    let mut best: u32 = 0;
    for _ in 0..500 {
        pipeline.step(
            &gravity, &params, &mut islands, &mut broad, &mut narrow, &mut bodies, &mut colliders,
            &mut joints, &mut ccd, &(), &(),
        );
        let b = &bodies[rb];
        let t = Transform {
            handle: ball,
            position: Vec2::new(fixed(b.translation().x), fixed(b.translation().y)),
            rotation: fixed(b.rotation().angle()),
        };
        world.advance(&vec![t]);
        let y = world.get(ball).unwrap().position.y;
        if (y - rest).abs() <= tolerance {
            run += 1;
            best = best.max(run);
        } else {
            run = 0;
        }
    }
    assert_eq!(world.step_count(), 500);
    assert!(best >= 60, "longest rest run was {} ticks", best);
}
