//! The per-frame systems: paddle movement, ball movement, collision, and
//! brick cleanup. Each system's effect on the store is pinned down by a
//! spec function mapping the world's old contents to its new contents.

use vstd::prelude::*;
use crate::geom::{
    Position, Direction, Size, Rect, RectSp, Shape,
    rect_of, ball_rect, overlaps,
    FIELD_W, FIELD_H, BALL_HALF, BALL_STEP, PADDLE_STEP, COORD_LIMIT,
};
use crate::store::{
    EntityRec, world_view, full_paddle, full_ball, full_brick, flagged_brick,
    paddle_query, ball_query, brick_query, brick_flag_query,
    get_pos, get_dir, set_pos, set_dir, set_flag, despawn,
};

verus! {

/// The payload of a component that is present; `(0, 0)` for an absent one.
pub open spec fn pt(o: Option<(int, int)>) -> (int, int) {
    match o {
        Some(p) => p,
        None => (0, 0),
    }
}

/// Every component value of the record lies within [`COORD_LIMIT`].
pub open spec fn rec_bounded(e: EntityRec) -> bool {
    &&& (e.pos is Some ==> -COORD_LIMIT <= pt(e.pos).0 <= COORD_LIMIT
            && -COORD_LIMIT <= pt(e.pos).1 <= COORD_LIMIT)
    &&& (e.dir is Some ==> -COORD_LIMIT <= pt(e.dir).0 <= COORD_LIMIT
            && -COORD_LIMIT <= pt(e.dir).1 <= COORD_LIMIT)
    &&& (e.size is Some ==> -COORD_LIMIT <= pt(e.size).0 <= COORD_LIMIT
            && -COORD_LIMIT <= pt(e.size).1 <= COORD_LIMIT)
}

/// Both direction components are -1 or +1.
pub open spec fn unit_dir(d: (int, int)) -> bool {
    (d.0 == -1 || d.0 == 1) && (d.1 == -1 || d.1 == 1)
}

/// One paddle entity after a movement step: if the right key is held and
/// the paddle's right edge is inside the field, it moves right; then, if
/// the left key is held and its left edge is positive, it moves left.
pub open spec fn paddle_moved(e: EntityRec, left: bool, right: bool) -> EntityRec {
    let (x, y) = pt(e.pos);
    let (w, _h) = pt(e.size);
    let x1 = if right && x + w < FIELD_W as int { x + PADDLE_STEP as int } else { x };
    let x2 = if left && x1 > 0 { x1 - PADDLE_STEP as int } else { x1 };
    EntityRec { pos: Some((x2, y)), ..e }
}

/// The store after paddle movement: every entity matching the paddle query
/// is moved, everything else is untouched.
pub open spec fn paddle_phase(v: Map<u64, EntityRec>, left: bool, right: bool) -> Map<u64, EntityRec> {
    Map::new(
        |id: u64| v.dom().contains(id),
        |id: u64| if full_paddle(v[id]) { paddle_moved(v[id], left, right) } else { v[id] },
    )
}

/// One ball entity after a movement step: the position advances by
/// [`BALL_STEP`] times the direction sign on each axis.
pub open spec fn ball_moved(e: EntityRec) -> EntityRec {
    let (x, y) = pt(e.pos);
    let (dx, dy) = pt(e.dir);
    EntityRec { pos: Some((x + BALL_STEP as int * dx, y + BALL_STEP as int * dy)), ..e }
}

/// The store after ball movement: every entity matching the ball query is
/// moved, everything else is untouched.
pub open spec fn ball_phase(v: Map<u64, EntityRec>) -> Map<u64, EntityRec> {
    Map::new(
        |id: u64| v.dom().contains(id),
        |id: u64| if full_ball(v[id]) { ball_moved(v[id]) } else { v[id] },
    )
}

/// The ball's bounding box crosses the left or right field boundary.
pub open spec fn wall_flip_x(center: (int, int)) -> bool {
    (center.0 - BALL_HALF as int) < 0 || (center.0 + BALL_HALF as int) > FIELD_W as int
}

/// The ball's bounding box crosses the top field boundary.
pub open spec fn wall_flip_y(center: (int, int)) -> bool {
    (center.1 - BALL_HALF as int) < 0
}

/// Some paddle entity's rectangle overlaps the given rectangle.
pub open spec fn paddle_hit(v: Map<u64, EntityRec>, r: RectSp) -> bool {
    exists|id: u64| #[trigger] v.dom().contains(id) && full_paddle(v[id])
        && overlaps(r, rect_of(pt(v[id].pos), pt(v[id].size)))
}

/// Some brick entity's rectangle overlaps the given rectangle.
pub open spec fn brick_hit(v: Map<u64, EntityRec>, r: RectSp) -> bool {
    exists|id: u64| #[trigger] v.dom().contains(id) && full_brick(v[id])
        && overlaps(r, rect_of(pt(v[id].pos), pt(v[id].size)))
}

/// The record with its pending-removal flag raised.
pub open spec fn mark(e: EntityRec) -> EntityRec {
    EntityRec { marked: Some(true), ..e }
}

/// The store with every brick whose rectangle overlaps `r` marked for
/// removal.
pub open spec fn mark_bricks(v: Map<u64, EntityRec>, r: RectSp) -> Map<u64, EntityRec> {
    Map::new(
        |id: u64| v.dom().contains(id),
        |id: u64| if full_brick(v[id]) && overlaps(r, rect_of(pt(v[id].pos), pt(v[id].size))) {
            mark(v[id])
        } else {
            v[id]
        },
    )
}

/// The record with its direction negated on the chosen axes.
pub open spec fn flip(e: EntityRec, fx: bool, fy: bool) -> EntityRec {
    let (dx, dy) = pt(e.dir);
    EntityRec {
        dir: Some(((if fx { -dx } else { dx }), (if fy { -dy } else { dy }))),
        ..e
    }
}

/// The store after the collision pass for the ball `ball_id`: every brick
/// overlapping the ball's bounding box is marked, the ball's x direction
/// is negated exactly when its box crosses a vertical field boundary, and
/// its y direction exactly when its box crosses the top boundary or
/// overlaps a paddle or a brick.
pub open spec fn collision_phase(v: Map<u64, EntityRec>, ball_id: u64) -> Map<u64, EntityRec> {
    let c = pt(v[ball_id].pos);
    let r = ball_rect(c);
    let fx = wall_flip_x(c);
    let fy = wall_flip_y(c) || paddle_hit(v, r) || brick_hit(v, r);
    let marked = mark_bricks(v, r);
    marked.insert(ball_id, flip(marked[ball_id], fx, fy))
}

/// A brick whose pending-removal flag is raised.
pub open spec fn doomed(e: EntityRec) -> bool {
    e.brick && e.marked == Some(true)
}

/// The store after cleanup: every marked brick is gone, everything else is
/// untouched.
pub open spec fn cleanup_phase(v: Map<u64, EntityRec>) -> Map<u64, EntityRec> {
    Map::new(
        |id: u64| v.dom().contains(id) && !doomed(v[id]),
        |id: u64| v[id],
    )
}

/// Moves every paddle entity one step, as the held keys demand.
#[verifier::loop_isolation(false)]
pub fn paddle_movement_system(w: &mut hecs::World, left_down: bool, right_down: bool)
    requires
        forall|id: u64| #[trigger] world_view(*old(w)).dom().contains(id)
            && full_paddle(world_view(*old(w))[id])
            ==> rec_bounded(world_view(*old(w))[id]),
    ensures
        world_view(*final(w)) == paddle_phase(world_view(*old(w)), left_down, right_down),
{
    let ghost v0 = world_view(*w);
    let paddles = paddle_query(w);
    let n = paddles.len();
    for k in 0..n
        invariant
            world_view(*w).dom() == v0.dom(),
            forall|id: u64| #[trigger] v0.dom().contains(id) ==> {
                if exists|i: int| 0 <= i < k && #[trigger] paddles@[i].0 == id {
                    world_view(*w)[id] == paddle_moved(v0[id], left_down, right_down)
                } else {
                    world_view(*w)[id] == v0[id]
                }
            },
    {
        let (id, p, s) = paddles[k];
        assert(v0.dom().contains(id) && v0[id].pos == Some(p.sp()) && v0[id].size == Some(s.sp()));
        assert(world_view(*w)[id] == v0[id]);
        let mut x = p.x;
        if right_down && x + s.w < FIELD_W {
            x = x + PADDLE_STEP;
        }
        if left_down && x > 0 {
            x = x - PADDLE_STEP;
        }
        set_pos(w, id, Position { x, y: p.y });
        assert(world_view(*w)[id] == paddle_moved(v0[id], left_down, right_down));
        assert forall|id2: u64| #[trigger] v0.dom().contains(id2) implies {
            if exists|i: int| 0 <= i < k + 1 && #[trigger] paddles@[i].0 == id2 {
                world_view(*w)[id2] == paddle_moved(v0[id2], left_down, right_down)
            } else {
                world_view(*w)[id2] == v0[id2]
            }
        } by {
            if id2 != id {
                if exists|i: int| 0 <= i < k + 1 && #[trigger] paddles@[i].0 == id2 {
                    let i = choose|i: int| 0 <= i < k + 1 && #[trigger] paddles@[i].0 == id2;
                    assert(i < k);
                }
            } else {
                assert(paddles@[k as int].0 == id2);
            }
        }
    }
    proof {
        assert forall|id: u64| #[trigger] v0.dom().contains(id) && full_paddle(v0[id])
            implies world_view(*w)[id] == paddle_moved(v0[id], left_down, right_down) by {
            let i = choose|i: int| 0 <= i < paddles@.len() && #[trigger] paddles@[i].0 == id;
            assert(0 <= i < n);
        }
        assert(world_view(*w) =~= paddle_phase(v0, left_down, right_down));
    }
}

/// Moves every ball entity one step along its direction.
#[verifier::loop_isolation(false)]
pub fn ball_movement_system(w: &mut hecs::World)
    requires
        forall|id: u64| #[trigger] world_view(*old(w)).dom().contains(id)
            && full_ball(world_view(*old(w))[id])
            ==> rec_bounded(world_view(*old(w))[id])
                && unit_dir(pt(world_view(*old(w))[id].dir)),
    ensures
        world_view(*final(w)) == ball_phase(world_view(*old(w))),
{
    let ghost v0 = world_view(*w);
    let balls = ball_query(w);
    let n = balls.len();
    for k in 0..n
        invariant
            world_view(*w).dom() == v0.dom(),
            forall|id: u64| #[trigger] v0.dom().contains(id) ==> {
                if exists|i: int| 0 <= i < k && #[trigger] balls@[i].0 == id {
                    world_view(*w)[id] == ball_moved(v0[id])
                } else {
                    world_view(*w)[id] == v0[id]
                }
            },
    {
        let (id, p, d) = balls[k];
        assert(v0.dom().contains(id) && v0[id].pos == Some(p.sp()) && v0[id].dir == Some(d.sp()));
        assert(world_view(*w)[id] == v0[id]);
        assert(unit_dir(d.sp()));
        set_pos(w, id, Position { x: p.x + BALL_STEP * d.x, y: p.y + BALL_STEP * d.y });
        assert(world_view(*w)[id] == ball_moved(v0[id]));
        assert forall|id2: u64| #[trigger] v0.dom().contains(id2) implies {
            if exists|i: int| 0 <= i < k + 1 && #[trigger] balls@[i].0 == id2 {
                world_view(*w)[id2] == ball_moved(v0[id2])
            } else {
                world_view(*w)[id2] == v0[id2]
            }
        } by {
            if id2 != id {
                if exists|i: int| 0 <= i < k + 1 && #[trigger] balls@[i].0 == id2 {
                    let i = choose|i: int| 0 <= i < k + 1 && #[trigger] balls@[i].0 == id2;
                    assert(i < k);
                }
            } else {
                assert(balls@[k as int].0 == id2);
            }
        }
    }
    proof {
        assert forall|id: u64| #[trigger] v0.dom().contains(id) && full_ball(v0[id])
            implies world_view(*w)[id] == ball_moved(v0[id]) by {
            let i = choose|i: int| 0 <= i < balls@.len() && #[trigger] balls@[i].0 == id;
            assert(0 <= i < n);
        }
        assert(world_view(*w) =~= ball_phase(v0));
    }
}

/// Detects the ball's collisions and reacts: marks every brick whose
/// rectangle overlaps the ball's bounding box for removal, then negates
/// the ball's direction on the axes that the walls, the paddle and the
/// bricks demand. A brick hit always bounces the ball vertically: the
/// written side test (ball fully left of the brick and fully right of it
/// at once) is unsatisfiable for an overlapping pair, and the proof of
/// [`collision_phase`] shows that branch dead.
#[verifier::loop_isolation(false)]
pub fn ball_collision_system(w: &mut hecs::World, ball_id: u64)
    requires
        world_view(*old(w)).dom().contains(ball_id),
        world_view(*old(w))[ball_id].pos is Some,
        world_view(*old(w))[ball_id].dir is Some,
        rec_bounded(world_view(*old(w))[ball_id]),
    ensures
        world_view(*final(w)) == collision_phase(world_view(*old(w)), ball_id),
{
    let ghost v0 = world_view(*w);
    let bp = get_pos(w, ball_id);
    let ghost c = pt(v0[ball_id].pos);
    assert(bp.sp() == c);
    let brect = Rect::new(bp.x - BALL_HALF, bp.y - BALL_HALF, 2 * BALL_HALF, 2 * BALL_HALF);
    assert(brect.sp() == ball_rect(c));

    let mut fx = false;
    let mut fy = false;
    if bp.x - BALL_HALF < 0 || bp.x + BALL_HALF > FIELD_W {
        fx = true;
    }
    if bp.y - BALL_HALF < 0 {
        fy = true;
    }
    assert(fx == wall_flip_x(c));
    assert(fy == wall_flip_y(c));

    let paddles = paddle_query(w);
    let np = paddles.len();
    for k in 0..np
        invariant
            fy == (wall_flip_y(c) || exists|i: int| 0 <= i < k
                && #[trigger] overlaps(ball_rect(c), rect_of(paddles@[i].1.sp(), paddles@[i].2.sp()))),
    {
        let (_id, p, s) = paddles[k];
        let prect = Rect::new(p.x, p.y, s.w, s.h);
        if brect.intersects(&prect) {
            fy = true;
            assert(overlaps(ball_rect(c), rect_of(paddles@[k as int].1.sp(), paddles@[k as int].2.sp())));
        } else {
            assert forall|i: int| 0 <= i < k + 1
                && #[trigger] overlaps(ball_rect(c), rect_of(paddles@[i].1.sp(), paddles@[i].2.sp()))
                implies i < k by {
                if i == k {
                    assert(!overlaps(ball_rect(c), rect_of(p.sp(), s.sp())));
                }
            }
        }
    }
    proof {
        if fy && !wall_flip_y(c) && !paddle_hit(v0, ball_rect(c)) {
            let i = choose|i: int| 0 <= i < np
                && #[trigger] overlaps(ball_rect(c), rect_of(paddles@[i].1.sp(), paddles@[i].2.sp()));
            assert(v0.dom().contains(paddles@[i].0) && full_paddle(v0[paddles@[i].0])
                && overlaps(ball_rect(c), rect_of(pt(v0[paddles@[i].0].pos), pt(v0[paddles@[i].0].size))));
            assert(false);
        }
        if paddle_hit(v0, ball_rect(c)) {
            let id = choose|id: u64| #[trigger] v0.dom().contains(id) && full_paddle(v0[id])
                && overlaps(ball_rect(c), rect_of(pt(v0[id].pos), pt(v0[id].size)));
            let i = choose|i: int| 0 <= i < paddles@.len() && #[trigger] paddles@[i].0 == id;
            assert(v0[id].pos == Some(paddles@[i].1.sp()));
            assert(overlaps(ball_rect(c), rect_of(paddles@[i].1.sp(), paddles@[i].2.sp())));
        }
        assert(fy == (wall_flip_y(c) || paddle_hit(v0, ball_rect(c))));
    }

    let ghost fy_pre = fy;
    let bricks = brick_query(w);
    let nb = bricks.len();
    for k in 0..nb
        invariant
            world_view(*w).dom() == v0.dom(),
            forall|id: u64| #[trigger] v0.dom().contains(id) ==> {
                if exists|i: int| 0 <= i < k && #[trigger] bricks@[i].0 == id
                    && overlaps(ball_rect(c), rect_of(bricks@[i].1.sp(), bricks@[i].2.sp())) {
                    world_view(*w)[id] == mark(v0[id])
                } else {
                    world_view(*w)[id] == v0[id]
                }
            },
            fx == wall_flip_x(c),
            fy == (fy_pre || exists|i: int| 0 <= i < k
                && #[trigger] overlaps(ball_rect(c), rect_of(bricks@[i].1.sp(), bricks@[i].2.sp()))),
    {
        let (id, p, s, _m) = bricks[k];
        assert(v0.dom().contains(id) && v0[id].marked == Some(bricks@[k as int].3));
        let rect = Rect::new(p.x, p.y, s.w, s.h);
        let hit = brect.intersects(&rect);
        if hit {
            assert(world_view(*w)[id] == v0[id]) by {
                if exists|i: int| 0 <= i < k && #[trigger] bricks@[i].0 == id
                    && overlaps(ball_rect(c), rect_of(bricks@[i].1.sp(), bricks@[i].2.sp())) {
                    let i = choose|i: int| 0 <= i < k && #[trigger] bricks@[i].0 == id
                        && overlaps(ball_rect(c), rect_of(bricks@[i].1.sp(), bricks@[i].2.sp()));
                    assert(bricks@[i].0 == bricks@[k as int].0);
                    assert(false);
                }
            }
            set_flag(w, id, true);
            if (bp.x as i128) + (BALL_HALF as i128) < (p.x as i128)
                && (bp.x as i128) - (BALL_HALF as i128) > (p.x as i128) + (s.w as i128)
            {
                // Unreachable for an overlapping pair; kept as the rule is
                // written. The verifier confirms it below.
                assert(false);
                fx = true;
            } else {
                fy = true;
            }
        }
        assert forall|id2: u64| #[trigger] v0.dom().contains(id2) implies {
            if exists|i: int| 0 <= i < k + 1 && #[trigger] bricks@[i].0 == id2
                && overlaps(ball_rect(c), rect_of(bricks@[i].1.sp(), bricks@[i].2.sp())) {
                world_view(*w)[id2] == mark(v0[id2])
            } else {
                world_view(*w)[id2] == v0[id2]
            }
        } by {
            if exists|i: int| 0 <= i < k + 1 && #[trigger] bricks@[i].0 == id2
                && overlaps(ball_rect(c), rect_of(bricks@[i].1.sp(), bricks@[i].2.sp())) {
                let i = choose|i: int| 0 <= i < k + 1 && #[trigger] bricks@[i].0 == id2
                    && overlaps(ball_rect(c), rect_of(bricks@[i].1.sp(), bricks@[i].2.sp()));
                if i == k {
                    assert(id2 == id && hit);
                } else {
                    assert(id2 != id) by {
                        if id2 == id {
                            assert(bricks@[i].0 == bricks@[k as int].0);
                        }
                    }
                }
            } else {
                if id2 == id {
                    assert(!hit);
                }
            }
        }
        proof {
            if hit {
                assert(overlaps(ball_rect(c), rect_of(bricks@[k as int].1.sp(), bricks@[k as int].2.sp())));
            } else {
                assert forall|i: int| 0 <= i < k + 1
                    && #[trigger] overlaps(ball_rect(c), rect_of(bricks@[i].1.sp(), bricks@[i].2.sp()))
                    implies i < k by {}
            }
        }
    }
    proof {
        assert forall|id: u64| #[trigger] v0.dom().contains(id) && full_brick(v0[id])
            && overlaps(ball_rect(c), rect_of(pt(v0[id].pos), pt(v0[id].size)))
            implies world_view(*w)[id] == mark(v0[id]) by {
            let i = choose|i: int| 0 <= i < bricks@.len() && #[trigger] bricks@[i].0 == id;
            assert(v0[id].pos == Some(bricks@[i].1.sp()));
            assert(overlaps(ball_rect(c), rect_of(bricks@[i].1.sp(), bricks@[i].2.sp())));
        }
        assert forall|id: u64| #[trigger] v0.dom().contains(id)
            && !(full_brick(v0[id]) && overlaps(ball_rect(c), rect_of(pt(v0[id].pos), pt(v0[id].size))))
            implies world_view(*w)[id] == v0[id] by {
            if exists|i: int| 0 <= i < nb && #[trigger] bricks@[i].0 == id
                && overlaps(ball_rect(c), rect_of(bricks@[i].1.sp(), bricks@[i].2.sp())) {
                let i = choose|i: int| 0 <= i < nb && #[trigger] bricks@[i].0 == id
                    && overlaps(ball_rect(c), rect_of(bricks@[i].1.sp(), bricks@[i].2.sp()));
                assert(full_brick(v0[id]));
                assert(overlaps(ball_rect(c), rect_of(pt(v0[id].pos), pt(v0[id].size))));
                assert(false);
            }
        }
        assert(world_view(*w) =~= mark_bricks(v0, ball_rect(c)));
        if fy && !fy_pre && !brick_hit(v0, ball_rect(c)) {
            let i = choose|i: int| 0 <= i < nb
                && #[trigger] overlaps(ball_rect(c), rect_of(bricks@[i].1.sp(), bricks@[i].2.sp()));
            assert(v0.dom().contains(bricks@[i].0) && full_brick(v0[bricks@[i].0])
                && overlaps(ball_rect(c), rect_of(pt(v0[bricks@[i].0].pos), pt(v0[bricks@[i].0].size))));
            assert(false);
        }
        if brick_hit(v0, ball_rect(c)) {
            let id = choose|id: u64| #[trigger] v0.dom().contains(id) && full_brick(v0[id])
                && overlaps(ball_rect(c), rect_of(pt(v0[id].pos), pt(v0[id].size)));
            let i = choose|i: int| 0 <= i < bricks@.len() && #[trigger] bricks@[i].0 == id;
            assert(v0[id].pos == Some(bricks@[i].1.sp()));
            assert(overlaps(ball_rect(c), rect_of(bricks@[i].1.sp(), bricks@[i].2.sp())));
        }
        assert(fy == (wall_flip_y(c) || paddle_hit(v0, ball_rect(c)) || brick_hit(v0, ball_rect(c))));
    }

    let ghost marked = mark_bricks(v0, ball_rect(c));
    assert(world_view(*w) == marked);
    assert(marked.dom().contains(ball_id) && marked[ball_id].dir == v0[ball_id].dir);
    if fx {
        let d = get_dir(w, ball_id);
        set_dir(w, ball_id, Direction { x: -d.x, y: d.y });
    }
    if fy {
        let d = get_dir(w, ball_id);
        set_dir(w, ball_id, Direction { x: d.x, y: -d.y });
    }
    proof {
        assert(world_view(*w) =~= collision_phase(v0, ball_id));
    }
}

/// Despawns every brick whose pending-removal flag is raised.
#[verifier::loop_isolation(false)]
pub fn cleanup_system(w: &mut hecs::World)
    ensures
        world_view(*final(w)) == cleanup_phase(world_view(*old(w))),
{
    let ghost v0 = world_view(*w);
    let flags = brick_flag_query(w);
    let n = flags.len();
    for k in 0..n
        invariant
            forall|id: u64| #[trigger] world_view(*w).dom().contains(id) <==> (
                v0.dom().contains(id)
                && !(exists|i: int| 0 <= i < k && #[trigger] flags@[i].0 == id && flags@[i].1)
            ),
            forall|id: u64| #[trigger] world_view(*w).dom().contains(id)
                ==> world_view(*w)[id] == v0[id],
    {
        let (id, m) = flags[k];
        assert(v0.dom().contains(id) && v0[id].marked == Some(m));
        if m {
            assert(world_view(*w).dom().contains(id)) by {
                if exists|i: int| 0 <= i < k && #[trigger] flags@[i].0 == id && flags@[i].1 {
                    let i = choose|i: int| 0 <= i < k && #[trigger] flags@[i].0 == id && flags@[i].1;
                    assert(flags@[i].0 == flags@[k as int].0);
                    assert(false);
                }
            }
            despawn(w, id);
        }
        assert forall|id2: u64| #[trigger] world_view(*w).dom().contains(id2) <==> (
            v0.dom().contains(id2)
            && !(exists|i: int| 0 <= i < k + 1 && #[trigger] flags@[i].0 == id2 && flags@[i].1)
        ) by {
            if exists|i: int| 0 <= i < k + 1 && #[trigger] flags@[i].0 == id2 && flags@[i].1 {
                let i = choose|i: int| 0 <= i < k + 1 && #[trigger] flags@[i].0 == id2 && flags@[i].1;
                if i < k {
                    assert(!world_view(*w).dom().contains(id2));
                }
            }
        }
    }
    proof {
        assert forall|id: u64| v0.dom().contains(id) && doomed(v0[id])
            implies exists|i: int| 0 <= i < flags@.len() && #[trigger] flags@[i].0 == id && flags@[i].1 by {
            assert(flagged_brick(v0[id]));
            let i = choose|i: int| 0 <= i < flags@.len() && #[trigger] flags@[i].0 == id;
            assert(v0[id].marked == Some(flags@[i].1));
            assert(flags@[i].1);
        }
        assert forall|id: u64| v0.dom().contains(id)
            && (exists|i: int| 0 <= i < flags@.len() && #[trigger] flags@[i].0 == id && flags@[i].1)
            implies doomed(v0[id]) by {
            let i = choose|i: int| 0 <= i < flags@.len() && #[trigger] flags@[i].0 == id && flags@[i].1;
            assert(v0[id].brick && v0[id].marked == Some(true));
        }
        assert(world_view(*w) =~= cleanup_phase(v0));
    }
}

} // verus!
