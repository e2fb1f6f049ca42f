//! Creating shapes where the user clicks, with a random velocity and size.
use vstd::prelude::*;
use rand::Rng;
use crate::geometry::{Geometry, Position};
use crate::world::{Collider, Entity, Velocity, World, entity_wf};

verus! {

/// Grid units per screen pixel.
pub const GRID: i64 = 1_000_000;

/// The ranges that new shapes are drawn from, in grid units (speeds in grid
/// units per millisecond).
#[derive(Clone, Copy, Debug, PartialEq, Eq, Structural)]
pub struct SpawnConfig {
    /// Each velocity component is drawn from `[-half_speed, half_speed)`.
    pub half_speed: u32,
    /// Circle radii are drawn from `[radius_min, radius_min + radius_span)`.
    pub radius_min: u32,
    pub radius_span: u32,
    /// Square sides are drawn from `[side_min, side_min + side_span)`.
    pub side_min: u32,
    pub side_span: u32,
}

impl SpawnConfig {
    /// Every range is non-empty, every size positive, and every bound fits.
    pub open spec fn wf(self) -> bool {
        &&& self.half_speed > 0
        &&& self.radius_min > 0
        &&& self.radius_span > 0
        &&& self.radius_min + self.radius_span <= u32::MAX
        &&& self.side_min > 0
        &&& self.side_span > 0
        &&& self.side_min + self.side_span <= u32::MAX
    }

    /// Speeds within 8 pixels per second each way, radii from 10 to 30 pixels
    /// and sides from 20 to 60 pixels.
    pub fn standard() -> (r: SpawnConfig)
        ensures
            r.wf(),
            r.half_speed == 8000,
            r.radius_min == 10 * GRID,
            r.radius_span == 20 * GRID,
            r.side_min == 20 * GRID,
            r.side_span == 40 * GRID,
    {
        SpawnConfig {
            half_speed: 8000,
            radius_min: 10_000_000,
            radius_span: 20_000_000,
            side_min: 20_000_000,
            side_span: 40_000_000,
        }
    }
}

/// The grid point under screen pixel `(x, y)`.
pub open spec fn pixel_point(x: i32, y: i32) -> Position {
    Position { x: (x * GRID) as i64, y: (y * GRID) as i64 }
}

/// The entity that a click at `(x, y)` creates from the draws `vx`, `vy`,
/// `kind` and `size`: a circle when `kind` is 0, else a square.
pub open spec fn spawned(cfg: SpawnConfig, x: i32, y: i32, vx: u64, vy: u64, kind: u64, size: u64) -> Entity {
    Entity {
        position: Some(pixel_point(x, y)),
        velocity: Some(Velocity { x: (vx - cfg.half_speed) as i64, y: (vy - cfg.half_speed) as i64 }),
        geometry: Some(
            if kind == 0 {
                Geometry::Circle((cfg.radius_min + size) as u32)
            } else {
                Geometry::Square((cfg.side_min + size) as u32)
            },
        ),
        collider: Some(Collider { colliding: false }),
    }
}

/// The draws are within the ranges that `cfg` gives.
pub open spec fn draws_in_range(cfg: SpawnConfig, vx: u64, vy: u64, kind: u64, size: u64) -> bool {
    &&& vx < 2 * cfg.half_speed
    &&& vy < 2 * cfg.half_speed
    &&& kind < 2
    &&& size < if kind == 0 { cfg.radius_span } else { cfg.side_span }
}

/// Builds the entity for a click at `(x, y)` from draws already made.
pub fn spawn_from_draws(cfg: &SpawnConfig, x: i32, y: i32, vx: u64, vy: u64, kind: u64, size: u64) -> (r: Entity)
    requires
        cfg.wf(),
        draws_in_range(*cfg, vx, vy, kind, size),
    ensures
        r == spawned(*cfg, x, y, vx, vy, kind, size),
        entity_wf(r),
{
    let half = cfg.half_speed as i64;
    let velocity = Velocity { x: vx as i64 - half, y: vy as i64 - half };
    let position = Position { x: x as i64 * GRID, y: y as i64 * GRID };
    let geometry = if kind == 0 {
        Geometry::Circle(cfg.radius_min + size as u32)
    } else {
        Geometry::Square(cfg.side_min + size as u32)
    };
    Entity { position: Some(position), velocity: Some(velocity), geometry: Some(geometry), collider: Some(Collider::new()) }
}

/// Relies on rand's `Rng::gen_range` on the thread-local generator: a value
/// from the half-open range `0..n`, which must not be empty.
#[verifier::external_body]
fn draw_below(n: u64) -> (r: u64)
    requires
        n > 0,
    ensures
        r < n,
{
    rand::thread_rng().gen_range(0..n)
}

impl World {
    /// The opening scene: one resting circle of radius 20 pixels at pixel
    /// `(100, 100)`, with a cleared flag.
    pub fn start_scene() -> (r: World)
        ensures
            r.wf(),
            r@ == seq![
                Entity {
                    position: Some(pixel_point(100, 100)),
                    velocity: None,
                    geometry: Some(Geometry::Circle((20 * GRID) as u32)),
                    collider: Some(Collider { colliding: false }),
                },
            ],
    {
        let mut w = World::new();
        let e = Entity {
            position: Some(Position { x: 100 * GRID, y: 100 * GRID }),
            velocity: None,
            geometry: Some(Geometry::Circle(20_000_000)),
            collider: Some(Collider::new()),
        };
        w.spawn(e);
        assert(w@ =~= seq![e]);
        w
    }

    /// Adds a shape at screen pixel `(x, y)` with a velocity and a size drawn
    /// at random from `cfg`: a circle or a square, each with even odds.
    pub fn spawn_random(&mut self, cfg: &SpawnConfig, x: i32, y: i32) -> (id: usize)
        requires
            old(self).wf(),
            cfg.wf(),
            old(self)@.len() < usize::MAX,
        ensures
            id == old(self)@.len(),
            final(self).wf(),
            exists|vx: u64, vy: u64, kind: u64, size: u64|
                draws_in_range(*cfg, vx, vy, kind, size) && final(self)@ == old(self)@.push(
                    #[trigger] spawned(*cfg, x, y, vx, vy, kind, size),
                ),
    {
        let span = 2 * (cfg.half_speed as u64);
        let vx = draw_below(span);
        let vy = draw_below(span);
        let kind = draw_below(2);
        let size = if kind == 0 {
            draw_below(cfg.radius_span as u64)
        } else {
            draw_below(cfg.side_span as u64)
        };
        let e = spawn_from_draws(cfg, x, y, vx, vy, kind, size);
        let id = self.spawn(e);
        assert(draws_in_range(*cfg, vx, vy, kind, size));
        id
    }
}

} // verus!
