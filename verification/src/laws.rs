//! The simulation's cross-cutting guarantees, each proved against the
//! phase specifications: where the paddle can be, how many paddles and
//! balls a store holds, that bricks only vanish, that a hit brick
//! vanishes, and how wall crossings act on the ball's direction.

use vstd::prelude::*;
use crate::geom::{rect_of, ball_rect, overlaps, FIELD_W, PADDLE_STEP};
use crate::store::EntityRec;
use crate::systems::{pt, paddle_moved, ball_moved, wall_flip_x};
use crate::state::{
    wf_view, frame, brick_count, bricks_of, lemma_frame,
    PADDLE_W,
};

verus! {

/// The paddle-tagged entities of a store.
pub open spec fn paddles_of(v: Map<u64, EntityRec>) -> Set<u64> {
    v.dom().filter(|id: u64| v[id].paddle)
}

/// The ball-tagged entities of a store.
pub open spec fn balls_of(v: Map<u64, EntityRec>) -> Set<u64> {
    v.dom().filter(|id: u64| v[id].ball)
}

/// A paddle whose left edge lies within [0, field width - paddle width]
/// is still within that band after one movement step, except from two
/// open boundary strips, from which a single held key steps it out of the
/// band: less than one step above zero with only the left key held, or
/// less than one step under the bound with only the right key held.
pub proof fn lemma_paddle_stays_in_field(e: EntityRec, left: bool, right: bool)
    requires
        e.pos is Some && e.size is Some,
        pt(e.size).0 == PADDLE_W as int,
        0 <= pt(e.pos).0 <= FIELD_W as int - PADDLE_W as int,
        !(left && !right && 0 < pt(e.pos).0 < PADDLE_STEP as int),
        !(right && !left
            && (FIELD_W as int - PADDLE_W as int - PADDLE_STEP as int) < pt(e.pos).0
            && pt(e.pos).0 < FIELD_W as int - PADDLE_W as int),
    ensures
        0 <= pt(paddle_moved(e, left, right).pos).0,
        pt(paddle_moved(e, left, right).pos).0 <= FIELD_W as int - PADDLE_W as int,
{
}

/// A well-formed store holds exactly one paddle entity and exactly one
/// ball entity, and one frame keeps it so.
pub proof fn lemma_one_paddle_one_ball(
    v: Map<u64, EntityRec>, paddle: u64, ball: u64, left: bool, right: bool,
)
    requires
        wf_view(v, paddle, ball),
    ensures
        paddles_of(v).len() == 1,
        balls_of(v).len() == 1,
        paddles_of(frame(v, ball, left, right)).len() == 1,
        balls_of(frame(v, ball, left, right)).len() == 1,
{
    lemma_frame(v, paddle, ball, left, right);
    let v4 = frame(v, ball, left, right);
    assert(paddles_of(v) =~= Set::<u64>::empty().insert(paddle));
    assert(balls_of(v) =~= Set::<u64>::empty().insert(ball));
    assert(paddles_of(v4) =~= Set::<u64>::empty().insert(paddle));
    assert(balls_of(v4) =~= Set::<u64>::empty().insert(ball));
    vstd::set::axiom_set_insert_len(Set::<u64>::empty(), paddle);
    vstd::set::axiom_set_insert_len(Set::<u64>::empty(), ball);
}

/// Across one frame the set of brick entities can only shrink: the brick
/// count is monotonically non-increasing.
pub proof fn lemma_brick_count_monotone(
    v: Map<u64, EntityRec>, paddle: u64, ball: u64, left: bool, right: bool,
)
    requires
        wf_view(v, paddle, ball),
    ensures
        bricks_of(frame(v, ball, left, right)).subset_of(bricks_of(v)),
        brick_count(frame(v, ball, left, right)) <= brick_count(v),
{
    lemma_frame(v, paddle, ball, left, right);
    let v4 = frame(v, ball, left, right);
    assert forall|id: u64| #[trigger] bricks_of(v4).contains(id)
        implies bricks_of(v).contains(id) by {
        assert(v4.dom().contains(id));
        assert(v.dom().contains(id));
        assert(id != paddle && id != ball);
        assert(v4[id] == v[id]);
    }
    v.dom().lemma_len_filter(|id: u64| v[id].brick);
    vstd::set_lib::lemma_len_subset(bricks_of(v4), bricks_of(v));
}

/// A brick whose rectangle the ball's bounding box overlaps during a
/// frame's collision pass is out of the store once that frame ends.
pub proof fn lemma_hit_brick_removed(
    v: Map<u64, EntityRec>, paddle: u64, ball: u64, left: bool, right: bool, id: u64,
)
    requires
        wf_view(v, paddle, ball),
        v.dom().contains(id),
        v[id].brick,
        overlaps(
            ball_rect(pt(ball_moved(v[ball]).pos)),
            rect_of(pt(v[id].pos), pt(v[id].size)),
        ),
    ensures
        !frame(v, ball, left, right).dom().contains(id),
{
    assert(id != paddle && id != ball);
    lemma_frame(v, paddle, ball, left, right);
}

/// When the moved ball's bounding box crosses the left or the right field
/// boundary, the frame negates the ball's x direction exactly once; when
/// it crosses neither, the x direction is untouched.
pub proof fn lemma_wall_bounce_x(
    v: Map<u64, EntityRec>, paddle: u64, ball: u64, left: bool, right: bool,
)
    requires
        wf_view(v, paddle, ball),
    ensures
        wall_flip_x(pt(ball_moved(v[ball]).pos))
            ==> pt(frame(v, ball, left, right)[ball].dir).0 == -pt(v[ball].dir).0,
        !wall_flip_x(pt(ball_moved(v[ball]).pos))
            ==> pt(frame(v, ball, left, right)[ball].dir).0 == pt(v[ball].dir).0,
{
    lemma_frame(v, paddle, ball, left, right);
}

} // verus!
