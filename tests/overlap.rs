use shape_overlap::geometry::{bounding_box, intersects, Aabb, Geometry, Position};
use shape_overlap::index::BoxIndex;
use shape_overlap::spawn::{spawn_from_draws, SpawnConfig, GRID};
use shape_overlap::world::{Collider, Entity, Velocity, World, TICK_MS};

fn shape(x: i64, y: i64, v: Option<(i64, i64)>, g: Geometry) -> Entity {
    Entity {
        position: Some(Position::new(x, y)),
        velocity: v.map(|(a, b)| Velocity::new(a, b)),
        geometry: Some(g),
        collider: Some(Collider::new()),
    }
}

fn flag(w: &World, i: usize) -> Option<bool> {
    w.entity(i).collider.map(|c| c.colliding)
}

#[test]
fn circle_box_spans_radius() {
    let b = bounding_box(&Geometry::Circle(20), &Position::new(100, -50));
    assert_eq!(b, Aabb { min_x: 160, min_y: -140, max_x: 240, max_y: -60 });
}

#[test]
fn square_box_is_centred() {
    let b = bounding_box(&Geometry::Square(7), &Position::new(10, 3));
    assert_eq!(b, Aabb { min_x: 13, min_y: -1, max_x: 27, max_y: 13 });
}

#[test]
fn box_is_deterministic() {
    let g = Geometry::Square(33);
    let p = Position::new(-4, 91);
    assert_eq!(bounding_box(&g, &p), bounding_box(&g, &p));
}

#[test]
fn touching_boxes_interfere() {
    let a = bounding_box(&Geometry::Square(10), &Position::new(0, 0));
    let b = bounding_box(&Geometry::Square(10), &Position::new(10, 0));
    let c = bounding_box(&Geometry::Square(10), &Position::new(11, 0));
    assert!(intersects(&a, &b));
    assert!(intersects(&b, &a));
    assert!(!intersects(&a, &c));
}

#[test]
fn index_counts_interfering_leaves() {
    let mut idx = BoxIndex::new();
    idx.insert(bounding_box(&Geometry::Circle(5), &Position::new(0, 0)));
    idx.insert(bounding_box(&Geometry::Circle(5), &Position::new(8, 0)));
    idx.insert(bounding_box(&Geometry::Circle(5), &Position::new(100, 100)));
    assert_eq!(idx.len(), 3);
    let q = bounding_box(&Geometry::Circle(1), &Position::new(4, 0));
    assert_eq!(idx.count_interferences(&q), 2);
    let far = bounding_box(&Geometry::Circle(1), &Position::new(-50, 0));
    assert_eq!(idx.count_interferences(&far), 0);
}

#[test]
fn motion_adds_velocity_times_step() {
    let mut w = World::new();
    w.spawn(shape(10, -5, Some((3, -7)), Geometry::Circle(1)));
    w.spawn(shape(4, 4, None, Geometry::Circle(1)));
    w.integrate();
    assert_eq!(w.entity(0).position, Some(Position::new(10 + 3 * TICK_MS, -5 - 7 * TICK_MS)));
    assert_eq!(w.entity(0).position, Some(Position::new(160, -355)));
    assert_eq!(w.entity(1).position, Some(Position::new(4, 4)));
}

#[test]
fn circles_on_an_axis_flag_iff_within_reach() {
    let mut w = World::new();
    w.spawn(shape(0, 0, None, Geometry::Circle(20)));
    w.spawn(shape(35, 0, None, Geometry::Circle(15)));
    w.tick();
    assert_eq!(flag(&w, 0), Some(true));
    assert_eq!(flag(&w, 1), Some(true));

    let mut w = World::new();
    w.spawn(shape(0, 0, None, Geometry::Circle(20)));
    w.spawn(shape(0, 36, None, Geometry::Circle(15)));
    w.tick();
    assert_eq!(flag(&w, 0), Some(false));
    assert_eq!(flag(&w, 1), Some(false));
}

#[test]
fn diagonal_circles_flag_by_their_boxes() {
    let mut w = World::new();
    w.spawn(shape(0, 0, None, Geometry::Circle(20)));
    w.spawn(shape(30, 30, None, Geometry::Circle(20)));
    w.tick();
    assert_eq!(flag(&w, 0), Some(true));
    assert_eq!(flag(&w, 1), Some(true));
}

#[test]
fn isolated_shape_is_not_flagged() {
    let mut w = World::new();
    w.spawn(shape(5, 5, Some((1, 1)), Geometry::Square(9)));
    w.tick();
    assert_eq!(flag(&w, 0), Some(false));
}

#[test]
fn coincident_squares_always_flag() {
    for side in [1u32, 2, 7, 1000, u32::MAX] {
        let mut w = World::new();
        w.spawn(shape(-3, 8, None, Geometry::Square(side)));
        w.spawn(shape(-3, 8, None, Geometry::Square(side)));
        w.tick();
        assert_eq!(flag(&w, 0), Some(true));
        assert_eq!(flag(&w, 1), Some(true));
    }
}

#[test]
fn flags_are_symmetric() {
    let mut w = World::new();
    w.spawn(shape(0, 0, None, Geometry::Square(10)));
    w.spawn(shape(500, 500, None, Geometry::Circle(3)));
    w.spawn(shape(9, 1, None, Geometry::Circle(4)));
    w.tick();
    assert_eq!(flag(&w, 0), Some(true));
    assert_eq!(flag(&w, 1), Some(false));
    assert_eq!(flag(&w, 2), Some(true));
}

#[test]
fn flag_clears_once_shapes_part() {
    let mut w = World::new();
    w.spawn(shape(0, 0, Some((2, 0)), Geometry::Circle(10)));
    w.spawn(shape(0, 0, None, Geometry::Circle(10)));
    w.tick();
    assert_eq!(w.entity(0).position, Some(Position::new(100, 0)));
    assert_eq!(flag(&w, 0), Some(false));

    let mut w = World::new();
    w.spawn(shape(0, 0, Some((0, 1)), Geometry::Circle(30)));
    w.spawn(shape(0, 0, None, Geometry::Circle(30)));
    w.tick();
    assert_eq!(flag(&w, 0), Some(true));
    assert_eq!(flag(&w, 1), Some(true));
    w.tick();
    w.tick();
    assert_eq!(flag(&w, 0), Some(false));
    assert_eq!(flag(&w, 1), Some(false));
}

#[test]
fn two_circles_meet_then_part() {
    let mut w = World::new();
    let x = w.spawn(shape(100, 100, Some((0, 0)), Geometry::Circle(20)));
    let y = w.spawn(shape(110, 100, Some((0, 0)), Geometry::Circle(20)));
    w.tick();
    assert_eq!(flag(&w, x), Some(true));
    assert_eq!(flag(&w, y), Some(true));
    w.set_position(y, Position::new(10000, 10000));
    w.tick();
    assert_eq!(flag(&w, x), Some(false));
    assert_eq!(flag(&w, y), Some(false));
}

#[test]
fn shape_without_flag_still_counts_for_others() {
    let mut w = World::new();
    w.spawn(shape(0, 0, None, Geometry::Circle(5)));
    w.spawn(Entity {
        position: Some(Position::new(3, 0)),
        velocity: None,
        geometry: Some(Geometry::Circle(5)),
        collider: None,
    });
    w.spawn(Entity {
        position: Some(Position::new(0, 0)),
        velocity: None,
        geometry: None,
        collider: Some(Collider { colliding: true }),
    });
    w.tick();
    assert_eq!(flag(&w, 0), Some(true));
    assert_eq!(flag(&w, 1), None);
    assert_eq!(flag(&w, 2), Some(false));
}

#[test]
fn reset_clears_every_flag() {
    let mut w = World::new();
    w.spawn(Entity {
        position: None,
        velocity: None,
        geometry: None,
        collider: Some(Collider { colliding: true }),
    });
    w.spawn(shape(1, 2, None, Geometry::Square(3)));
    w.reset_colliders();
    assert_eq!(flag(&w, 0), Some(false));
    assert_eq!(flag(&w, 1), Some(false));
    assert_eq!(w.entity(1).position, Some(Position::new(1, 2)));
}

#[test]
fn update_uses_the_given_index() {
    let mut w = World::new();
    w.spawn(shape(0, 0, None, Geometry::Circle(5)));
    w.spawn(shape(100, 0, None, Geometry::Circle(5)));
    let idx = w.build_index();
    assert_eq!(idx.len(), 2);
    w.update_colliders(&idx);
    assert_eq!(flag(&w, 0), Some(false));
    w.set_position(1, Position::new(4, 0));
    let idx = w.build_index();
    w.update_colliders(&idx);
    assert_eq!(flag(&w, 0), Some(true));
    assert_eq!(flag(&w, 1), Some(true));
}

#[test]
fn draws_map_to_a_shape() {
    let cfg = SpawnConfig::standard();
    let e = spawn_from_draws(&cfg, 12, -3, 0, 15999, 0, 5);
    assert_eq!(e.position, Some(Position::new(12 * GRID, -3 * GRID)));
    assert_eq!(e.velocity, Some(Velocity::new(-8000, 7999)));
    assert_eq!(e.geometry, Some(Geometry::Circle(10_000_005)));
    assert_eq!(e.collider, Some(Collider { colliding: false }));
    let e = spawn_from_draws(&cfg, 0, 0, 8000, 8000, 1, 39_999_999);
    assert_eq!(e.velocity, Some(Velocity::new(0, 0)));
    assert_eq!(e.geometry, Some(Geometry::Square(59_999_999)));
}

#[test]
fn random_spawns_stay_in_range() {
    let cfg = SpawnConfig::standard();
    let mut w = World::new();
    for k in 0..200 {
        let id = w.spawn_random(&cfg, 40, 30);
        assert_eq!(id, k);
        let e = w.entity(id);
        assert_eq!(e.position, Some(Position::new(40 * GRID, 30 * GRID)));
        let v = e.velocity.unwrap();
        assert!(-8000 <= v.x && v.x < 8000);
        assert!(-8000 <= v.y && v.y < 8000);
        match e.geometry.unwrap() {
            Geometry::Circle(r) => assert!(10 * GRID as u32 <= r && r < 30 * GRID as u32),
            Geometry::Square(s) => assert!(20 * GRID as u32 <= s && s < 60 * GRID as u32),
        }
        assert_eq!(e.collider, Some(Collider { colliding: false }));
    }
    assert_eq!(w.len(), 200);
}

#[test]
fn opening_scene_holds_one_resting_circle() {
    let w = World::start_scene();
    assert_eq!(w.len(), 1);
    let e = w.entity(0);
    assert_eq!(e.position, Some(Position::new(100 * GRID, 100 * GRID)));
    assert_eq!(e.velocity, None);
    assert_eq!(e.geometry, Some(Geometry::Circle(20 * GRID as u32)));
    assert_eq!(e.collider, Some(Collider { colliding: false }));
}
