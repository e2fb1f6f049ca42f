//! Facts about whole steps of a scene.
use vstd::prelude::*;
use crate::geometry::{Geometry, Position, box_of, overlaps};
use crate::world::{
    Collider, Entity, TICK_MS, entity_box, interferes, moved, overlaps_other, prepared,
    step_all, step_fits,
};

verus! {

/// The motion phase is exact: a moving entity ends at its old position plus
/// its velocity times the step length, on each axis.
pub proof fn lemma_motion_exact(e: Entity)
    requires
        e.position is Some,
        e.velocity is Some,
        step_fits(e),
    ensures
        moved(e).position->Some_0.x == e.position->Some_0.x + e.velocity->Some_0.x * TICK_MS,
        moved(e).position->Some_0.y == e.position->Some_0.y + e.velocity->Some_0.y * TICK_MS,
        moved(e).velocity == e.velocity,
        moved(e).geometry == e.geometry,
{
}

/// A resting circle with a flag.
pub open spec fn still_circle(e: Entity, c: Position, r: u32) -> bool {
    e.position == Some(c) && e.velocity is None && e.geometry == Some(Geometry::Circle(r))
        && e.collider is Some
}

/// The flags of a scene of two resting circles after a step.
///
/// Both circles are flagged exactly when their centres lie within `r1 + r2`
/// of each other along both axes. When the centres share an axis this is the
/// same as the distance between them being at most `r1 + r2`; whenever that
/// distance is at most `r1 + r2`, both are flagged.
pub proof fn lemma_two_circles(s: Seq<Entity>, c1: Position, r1: u32, c2: Position, r2: u32)
    requires
        s.len() == 2,
        still_circle(s[0], c1, r1),
        still_circle(s[1], c2, r2),
    ensures
        ({
            let dx = c1.x - c2.x;
            let dy = c1.y - c2.y;
            let reach = r1 + r2;
            let near = -reach <= dx <= reach && -reach <= dy <= reach;
            &&& step_all(s)[0].collider == Some(Collider { colliding: near })
            &&& step_all(s)[1].collider == Some(Collider { colliding: near })
            &&& (dx == 0 || dy == 0) ==> (near <==> dx * dx + dy * dy <= reach * reach)
            &&& dx * dx + dy * dy <= reach * reach ==> near
        }),
{
    let p = prepared(s);
    let dx = c1.x - c2.x;
    let dy = c1.y - c2.y;
    let reach = r1 + r2;
    let near = -reach <= dx <= reach && -reach <= dy <= reach;
    let b1 = box_of(Geometry::Circle(r1), c1);
    let b2 = box_of(Geometry::Circle(r2), c2);
    assert(p[0].position == Some(c1) && p[0].geometry == Some(Geometry::Circle(r1)));
    assert(p[1].position == Some(c2) && p[1].geometry == Some(Geometry::Circle(r2)));
    assert(overlaps(b1, b2) == near);
    assert(overlaps(b2, b1) == near);
    if near {
        assert(interferes(p[1], b1));
        assert(interferes(p[0], b2));
    }
    if overlaps_other(p, 0) {
        let j = choose|j: int| 0 <= j < p.len() && j != 0 && #[trigger] interferes(p[j], b1);
        assert(j == 1);
    }
    if overlaps_other(p, 1) {
        let j = choose|j: int| 0 <= j < p.len() && j != 1 && #[trigger] interferes(p[j], b2);
        assert(j == 0);
    }
    assert(reach >= 0);
    assert(dx * dx + dy * dy <= reach * reach ==> -reach <= dx <= reach) by (nonlinear_arith)
        requires
            reach >= 0,
    {
        assert(dy * dy >= 0);
    }
    assert(dx * dx + dy * dy <= reach * reach ==> -reach <= dy <= reach) by (nonlinear_arith)
        requires
            reach >= 0,
    {
        assert(dx * dx >= 0);
    }
    assert(dy == 0 && -reach <= dx <= reach ==> dx * dx + dy * dy <= reach * reach) by (nonlinear_arith)
        requires
            reach >= 0,
    {
    }
    assert(dx == 0 && -reach <= dy <= reach ==> dx * dx + dy * dy <= reach * reach) by (nonlinear_arith)
        requires
            reach >= 0,
    {
    }
}

/// An entity whose box, after the shapes have moved, meets no other entity's
/// box ends the step with its flag cleared.
pub proof fn lemma_isolated_not_flagged(s: Seq<Entity>, i: int)
    requires
        0 <= i < s.len(),
        s[i].collider is Some,
        forall|j: int|
            0 <= j < s.len() && j != i ==> !(#[trigger] interferes(
                prepared(s)[j],
                entity_box(prepared(s)[i])->Some_0,
            )),
    ensures
        step_all(s)[i].collider == Some(Collider { colliding: false }),
{
}

/// Two squares of the same side centred on the same point after the shapes
/// have moved are both flagged, whatever the side.
pub proof fn lemma_coincident_squares(s: Seq<Entity>, i: int, j: int, side: u32, c: Position)
    requires
        0 <= i < s.len(),
        0 <= j < s.len(),
        i != j,
        s[i].collider is Some,
        s[j].collider is Some,
        s[i].geometry == Some(Geometry::Square(side)),
        s[j].geometry == Some(Geometry::Square(side)),
        moved(s[i]).position == Some(c),
        moved(s[j]).position == Some(c),
    ensures
        step_all(s)[i].collider == Some(Collider { colliding: true }),
        step_all(s)[j].collider == Some(Collider { colliding: true }),
{
    let p = prepared(s);
    assert(p[i].position == Some(c) && p[i].geometry == Some(Geometry::Square(side)));
    assert(p[j].position == Some(c) && p[j].geometry == Some(Geometry::Square(side)));
    assert(interferes(p[j], entity_box(p[i])->Some_0));
    assert(interferes(p[i], entity_box(p[j])->Some_0));
}

/// Flags are symmetric: when the boxes of two flagged entities meet after the
/// shapes have moved, both end the step flagged.
pub proof fn lemma_flags_symmetric(s: Seq<Entity>, i: int, j: int)
    requires
        0 <= i < s.len(),
        0 <= j < s.len(),
        i != j,
        s[i].collider is Some,
        s[j].collider is Some,
        interferes(prepared(s)[j], entity_box(prepared(s)[i])->Some_0),
        entity_box(prepared(s)[i]) is Some,
    ensures
        step_all(s)[i].collider == Some(Collider { colliding: true }),
        step_all(s)[j].collider == Some(Collider { colliding: true }),
{
    let p = prepared(s);
    let bi = entity_box(p[i])->Some_0;
    let bj = entity_box(p[j])->Some_0;
    assert(overlaps(bi, bj));
    assert(overlaps(bj, bi));
    assert(interferes(p[i], bj));
}

/// A flag does not outlive its overlap: an entity flagged after one step
/// whose box meets no other box in the next step ends that step unflagged.
pub proof fn lemma_stale_flag_cleared(s: Seq<Entity>, i: int)
    requires
        0 <= i < s.len(),
        step_all(s)[i].collider == Some(Collider { colliding: true }),
        forall|j: int|
            0 <= j < s.len() && j != i ==> !(#[trigger] interferes(
                prepared(step_all(s))[j],
                entity_box(prepared(step_all(s))[i])->Some_0,
            )),
    ensures
        step_all(step_all(s))[i].collider == Some(Collider { colliding: false }),
{
    let s1 = step_all(s);
    assert(s1.len() == s.len());
    lemma_isolated_not_flagged(s1, i);
}

} // verus!
