//! The scene: entities and the phases of one simulation step.
use vstd::prelude::*;
use crate::geometry::{Aabb, Geometry, Position, box_of, bounding_box, overlaps};
use crate::index::{BoxIndex, count_overlapping};

verus! {

/// The fixed length of one step, in milliseconds.
pub const TICK_MS: i64 = 50;

/// A velocity, in grid units per millisecond.
#[derive(Clone, Copy, Debug, PartialEq, Eq, Structural)]
pub struct Velocity {
    pub x: i64,
    pub y: i64,
}

impl Velocity {
    pub fn new(x: i64, y: i64) -> (r: Velocity)
        ensures
            r.x == x,
            r.y == y,
    {
        Velocity { x, y }
    }
}

/// Whether a shape currently overlaps another one.
#[derive(Clone, Copy, Debug, PartialEq, Eq, Structural)]
pub struct Collider {
    pub colliding: bool,
}

impl Collider {
    /// A flag that starts cleared.
    pub fn new() -> (r: Collider)
        ensures
            !r.colliding,
    {
        Collider { colliding: false }
    }
}

/// One entity and the attributes it carries.
#[derive(Clone, Copy, Debug, PartialEq, Eq, Structural)]
pub struct Entity {
    pub position: Option<Position>,
    pub velocity: Option<Velocity>,
    pub geometry: Option<Geometry>,
    pub collider: Option<Collider>,
}

/// An entity's shape, when it has one, has a positive size.
pub open spec fn entity_wf(e: Entity) -> bool {
    match e.geometry {
        Some(g) => g.wf(),
        None => true,
    }
}

/// The position reached from `p` after one step at velocity `v`.
pub open spec fn advance(p: Position, v: Velocity) -> (int, int) {
    (p.x + v.x * TICK_MS, p.y + v.y * TICK_MS)
}

/// One step of `e` keeps its coordinates within `i64`.
pub open spec fn step_fits(e: Entity) -> bool {
    match (e.position, e.velocity) {
        (Some(p), Some(v)) => {
            let (x, y) = advance(p, v);
            i64::MIN <= x <= i64::MAX && i64::MIN <= y <= i64::MAX
        },
        _ => true,
    }
}

/// `e` after the motion phase: moved by its velocity when it has both a
/// position and a velocity, untouched otherwise.
pub open spec fn moved(e: Entity) -> Entity {
    match (e.position, e.velocity) {
        (Some(p), Some(v)) => {
            let (x, y) = advance(p, v);
            Entity { position: Some(Position { x: x as i64, y: y as i64 }), ..e }
        },
        _ => e,
    }
}

/// `e` with its collision flag, if it has one, cleared.
pub open spec fn cleared(e: Entity) -> Entity {
    match e.collider {
        Some(_) => Entity { collider: Some(Collider { colliding: false }), ..e },
        None => e,
    }
}

/// The box that `e` contributes to the index: one exactly when it has both a
/// position and a shape.
pub open spec fn entity_box(e: Entity) -> Option<Aabb> {
    match (e.geometry, e.position) {
        (Some(g), Some(p)) => Some(box_of(g, p)),
        _ => None,
    }
}

/// The boxes of the entities of `s`, in order, skipping those without one.
pub open spec fn boxes(s: Seq<Entity>) -> Seq<Aabb>
    decreases s.len(),
{
    if s.len() == 0 {
        Seq::empty()
    } else {
        match entity_box(s.last()) {
            Some(b) => boxes(s.drop_last()).push(b),
            None => boxes(s.drop_last()),
        }
    }
}

/// `e` has a box and it interferes with `q`.
pub open spec fn interferes(e: Entity, q: Aabb) -> bool {
    match entity_box(e) {
        Some(b) => overlaps(q, b),
        None => false,
    }
}

/// Entity `i` of `s` has a box, and the box of some other entity of `s` interferes with it.
pub open spec fn overlaps_other(s: Seq<Entity>, i: int) -> bool {
    match entity_box(s[i]) {
        Some(q) => exists|j: int| 0 <= j < s.len() && j != i && #[trigger] interferes(s[j], q),
        None => false,
    }
}

/// Entity `i` of `s` after the query phase against the leaves `leaves`: an
/// entity with a flag and a box is flagged when more than one leaf meets its box.
pub open spec fn queried(s: Seq<Entity>, leaves: Seq<Aabb>, i: int) -> Entity {
    match (s[i].collider, entity_box(s[i])) {
        (Some(_), Some(q)) => Entity {
            collider: Some(Collider { colliding: count_overlapping(leaves, q) > 1 }),
            ..s[i]
        },
        _ => s[i],
    }
}

/// The scene after the flags are cleared and the shapes have moved.
pub open spec fn prepared(s: Seq<Entity>) -> Seq<Entity> {
    Seq::new(s.len(), |i: int| moved(cleared(s[i])))
}

/// Entity `i` after a whole step from `s`: moved, and with its flag, if it has
/// one, set exactly when its new box meets another entity's new box.
pub open spec fn stepped(s: Seq<Entity>, i: int) -> Entity {
    let m = moved(s[i]);
    match s[i].collider {
        Some(_) => Entity {
            collider: Some(Collider { colliding: overlaps_other(prepared(s), i) }),
            ..m
        },
        None => m,
    }
}

/// The scene after a whole step from `s`.
pub open spec fn step_all(s: Seq<Entity>) -> Seq<Entity> {
    Seq::new(s.len(), |i: int| stepped(s, i))
}

/// Counting over the boxes of `s` adds the last entity's contribution to that of the rest.
proof fn lemma_count_step(s: Seq<Entity>, q: Aabb)
    requires
        s.len() > 0,
    ensures
        count_overlapping(boxes(s), q) == count_overlapping(boxes(s.drop_last()), q) + if interferes(
            s.last(),
            q,
        ) {
            1nat
        } else {
            0nat
        },
{
    match entity_box(s.last()) {
        Some(b) => {
            assert(boxes(s).drop_last() == boxes(s.drop_last()));
        },
        None => {},
    }
}

/// Some box of `s` meets `q` exactly when some entity of `s` interferes with `q`.
proof fn lemma_count_positive(s: Seq<Entity>, q: Aabb)
    ensures
        count_overlapping(boxes(s), q) > 0 <==> exists|j: int| 0 <= j < s.len() && #[trigger] interferes(s[j], q),
    decreases s.len(),
{
    if s.len() > 0 {
        let t = s.drop_last();
        lemma_count_step(s, q);
        lemma_count_positive(t, q);
        if count_overlapping(boxes(t), q) > 0 {
            let j = choose|j: int| 0 <= j < t.len() && #[trigger] interferes(t[j], q);
            assert(s[j] == t[j]);
        }
        if exists|j: int| 0 <= j < s.len() && #[trigger] interferes(s[j], q) {
            let j = choose|j: int| 0 <= j < s.len() && #[trigger] interferes(s[j], q);
            if j < t.len() {
                assert(t[j] == s[j]);
            }
        }
    }
}

/// For an entity with a box, more than one leaf meets that box exactly when
/// the box of some other entity meets it.
proof fn lemma_count_other(s: Seq<Entity>, i: int)
    requires
        0 <= i < s.len(),
        entity_box(s[i]) is Some,
    ensures
        count_overlapping(boxes(s), entity_box(s[i])->Some_0) > 1 <==> overlaps_other(s, i),
    decreases s.len(),
{
    let q = entity_box(s[i])->Some_0;
    let n = s.len();
    let t = s.drop_last();
    lemma_count_step(s, q);
    lemma_count_positive(t, q);
    assert(interferes(s[i], q));
    if i == n - 1 {
        if count_overlapping(boxes(t), q) > 0 {
            let j = choose|j: int| 0 <= j < t.len() && #[trigger] interferes(t[j], q);
            assert(s[j] == t[j]);
        }
        if overlaps_other(s, i) {
            let j = choose|j: int| 0 <= j < s.len() && j != i && #[trigger] interferes(s[j], q);
            assert(t[j] == s[j]);
        }
    } else {
        assert(t[i] == s[i]);
        assert(interferes(t[i], q));
        lemma_count_other(t, i);
        if overlaps_other(t, i) {
            let j = choose|j: int| 0 <= j < t.len() && j != i && #[trigger] interferes(t[j], q);
            assert(s[j] == t[j]);
        }
        if overlaps_other(s, i) && !interferes(s.last(), q) {
            let j = choose|j: int| 0 <= j < s.len() && j != i && #[trigger] interferes(s[j], q);
            assert(j < n - 1);
            assert(t[j] == s[j]);
        }
        if interferes(s.last(), q) {
            assert(interferes(s[n - 1], q));
        }
    }
}

/// The entities of a scene, in the order of their creation.
pub struct World {
    entities: Vec<Entity>,
}

impl View for World {
    type V = Seq<Entity>;

    closed spec fn view(&self) -> Seq<Entity> {
        self.entities@
    }
}

impl World {
    /// Every shape in the scene has a positive size.
    pub open spec fn wf(&self) -> bool {
        forall|i: int| 0 <= i < self@.len() ==> entity_wf(#[trigger] self@[i])
    }

    /// A step from here keeps every coordinate within `i64`.
    pub open spec fn step_fits_all(&self) -> bool {
        forall|i: int| 0 <= i < self@.len() ==> step_fits(#[trigger] self@[i])
    }

    /// An empty scene.
    pub fn new() -> (r: World)
        ensures
            r@ == Seq::<Entity>::empty(),
            r.wf(),
    {
        World { entities: Vec::new() }
    }

    /// The number of entities.
    pub fn len(&self) -> (r: usize)
        ensures
            r == self@.len(),
    {
        self.entities.len()
    }

    /// Entity `i`.
    pub fn entity(&self, i: usize) -> (r: Entity)
        requires
            i < self@.len(),
        ensures
            r == self@[i as int],
    {
        self.entities[i]
    }

    /// Adds an entity; it takes part from the next step on.
    pub fn spawn(&mut self, e: Entity) -> (id: usize)
        requires
            old(self).wf(),
            entity_wf(e),
            old(self)@.len() < usize::MAX,
        ensures
            final(self)@ == old(self)@.push(e),
            id == old(self)@.len(),
            final(self).wf(),
    {
        let id = self.entities.len();
        self.entities.push(e);
        assert(forall|i: int| 0 <= i < id ==> self@[i] == old(self)@[i]);
        id
    }

    /// Places entity `i` at `p`.
    pub fn set_position(&mut self, i: usize, p: Position)
        requires
            i < old(self)@.len(),
        ensures
            final(self)@ == old(self)@.update(
                i as int,
                Entity { position: Some(p), ..old(self)@[i as int] },
            ),
            old(self).wf() ==> final(self).wf(),
    {
        let mut e = self.entities[i];
        e.position = Some(p);
        self.entities.set(i, e);
    }

    /// Tests whether a step from here keeps every coordinate within `i64`.
    pub fn can_step(&self) -> (r: bool)
        ensures
            r == self.step_fits_all(),
    {
        let n = self.entities.len();
        let mut i: usize = 0;
        while i < n
            invariant
                n == self@.len(),
                i <= n,
                forall|k: int| 0 <= k < i ==> step_fits(#[trigger] self@[k]),
            decreases n - i,
        {
            let e = self.entities[i];
            match (e.position, e.velocity) {
                (Some(p), Some(v)) => {
                    let x = p.x as i128 + v.x as i128 * TICK_MS as i128;
                    let y = p.y as i128 + v.y as i128 * TICK_MS as i128;
                    if x < i64::MIN as i128 || x > i64::MAX as i128 || y < i64::MIN as i128 || y
                        > i64::MAX as i128 {
                        assert(!step_fits(self@[i as int]));
                        return false;
                    }
                },
                _ => {},
            }
            i = i + 1;
        }
        true
    }

    /// Clears every collision flag.
    pub fn reset_colliders(&mut self)
        ensures
            final(self)@ == Seq::new(old(self)@.len(), |i: int| cleared(old(self)@[i])),
            old(self).wf() ==> final(self).wf(),
    {
        let n = self.entities.len();
        let mut i: usize = 0;
        while i < n
            invariant
                n == old(self)@.len(),
                i <= n,
                self@.len() == n,
                forall|k: int| 0 <= k < i ==> self@[k] == cleared(old(self)@[k]),
                forall|k: int| i <= k < n ==> self@[k] == old(self)@[k],
            decreases n - i,
        {
            let mut e = self.entities[i];
            if e.collider.is_some() {
                e.collider = Some(Collider::new());
            }
            self.entities.set(i, e);
            i = i + 1;
        }
        assert(self@ =~= Seq::new(old(self)@.len(), |i: int| cleared(old(self)@[i])));
    }

    /// Moves every entity that has a velocity by one step.
    pub fn integrate(&mut self)
        requires
            old(self).step_fits_all(),
        ensures
            final(self)@ == Seq::new(old(self)@.len(), |i: int| moved(old(self)@[i])),
            old(self).wf() ==> final(self).wf(),
    {
        let n = self.entities.len();
        let mut i: usize = 0;
        while i < n
            invariant
                n == old(self)@.len(),
                i <= n,
                self@.len() == n,
                forall|k: int| 0 <= k < n ==> step_fits(#[trigger] old(self)@[k]),
                forall|k: int| 0 <= k < i ==> self@[k] == moved(old(self)@[k]),
                forall|k: int| i <= k < n ==> self@[k] == old(self)@[k],
            decreases n - i,
        {
            let mut e = self.entities[i];
            assert(step_fits(old(self)@[i as int]));
            match (e.position, e.velocity) {
                (Some(p), Some(v)) => {
                    let x = (p.x as i128 + v.x as i128 * TICK_MS as i128) as i64;
                    let y = (p.y as i128 + v.y as i128 * TICK_MS as i128) as i64;
                    e.position = Some(Position { x, y });
                },
                _ => {},
            }
            self.entities.set(i, e);
            i = i + 1;
        }
        assert(self@ =~= Seq::new(old(self)@.len(), |i: int| moved(old(self)@[i])));
    }

    /// Builds a fresh index holding one leaf per entity that has a box, in entity order.
    pub fn build_index(&self) -> (r: BoxIndex)
        ensures
            r@ == boxes(self@),
    {
        let mut idx = BoxIndex::new();
        let n = self.entities.len();
        let mut i: usize = 0;
        while i < n
            invariant
                n == self@.len(),
                i <= n,
                idx@ == boxes(self@.take(i as int)),
            decreases n - i,
        {
            let e = self.entities[i];
            assert(self@.take(i as int + 1).drop_last() == self@.take(i as int));
            assert(self@.take(i as int + 1).last() == e);
            match (e.geometry, e.position) {
                (Some(g), Some(p)) => {
                    let b = bounding_box(&g, &p);
                    idx.insert(b);
                },
                _ => {},
            }
            i = i + 1;
        }
        assert(self@.take(n as int) == self@);
        idx
    }

    /// Sets the flag of every entity that has a flag and a box: set when more
    /// than one leaf of `idx` meets its box (its own leaf and another one).
    pub fn update_colliders(&mut self, idx: &BoxIndex)
        ensures
            final(self)@ == Seq::new(old(self)@.len(), |i: int| queried(old(self)@, idx@, i)),
            old(self).wf() ==> final(self).wf(),
    {
        let n = self.entities.len();
        let mut i: usize = 0;
        while i < n
            invariant
                n == old(self)@.len(),
                i <= n,
                self@.len() == n,
                forall|k: int| 0 <= k < i ==> self@[k] == queried(old(self)@, idx@, k),
                forall|k: int| i <= k < n ==> self@[k] == old(self)@[k],
            decreases n - i,
        {
            let mut e = self.entities[i];
            match (e.collider, e.geometry, e.position) {
                (Some(_), Some(g), Some(p)) => {
                    let b = bounding_box(&g, &p);
                    let hits = idx.count_interferences(&b);
                    e.collider = Some(Collider { colliding: hits > 1 });
                },
                _ => {},
            }
            self.entities.set(i, e);
            i = i + 1;
        }
        assert(self@ =~= Seq::new(old(self)@.len(), |i: int| queried(old(self)@, idx@, i)));
    }

    /// Runs one step: clear the flags, move the shapes, rebuild the index from
    /// the new positions, and flag every shape whose box meets another's.
    pub fn tick(&mut self)
        requires
            old(self).step_fits_all(),
        ensures
            final(self)@ == step_all(old(self)@),
            old(self).wf() ==> final(self).wf(),
    {
        let ghost s0 = self@;
        self.reset_colliders();
        assert(forall|k: int| 0 <= k < self@.len() ==> #[trigger] self@[k] == cleared(s0[k]));
        assert(self.step_fits_all()) by {
            assert forall|k: int| 0 <= k < self@.len() implies step_fits(#[trigger] self@[k]) by {
                assert(step_fits(s0[k]));
            }
        }
        self.integrate();
        let ghost s2 = self@;
        assert(s2 =~= prepared(s0));
        let idx = self.build_index();
        self.update_colliders(&idx);
        assert forall|k: int| 0 <= k < s0.len() implies #[trigger] queried(s2, boxes(s2), k) == stepped(s0, k) by {
            match entity_box(s2[k]) {
                Some(q) => lemma_count_other(s2, k),
                None => {},
            }
        }
        assert(self@ =~= step_all(s0));
    }
}

} // verus!
