//! The game state: the entity store together with the well-known paddle
//! and ball handles, the initial layout, and the per-frame update.

use vstd::prelude::*;
use crate::geom::{
    Position, Direction, Size, Shape,
    rect_of, ball_rect, overlaps,
    FIELD_W, FIELD_H, BRICK_COLS, BRICK_ROWS, BRICK_GAP,
    BALL_RADIUS, BALL_STEP, PADDLE_STEP,
};
use crate::store::{
    EntityRec, world_view, full_paddle, full_ball, full_brick,
    new_world, spawn_paddle, spawn_ball, spawn_brick,
    brick_query, get_pos, get_size,
};
use crate::systems::{
    pt, unit_dir, rec_bounded,
    paddle_moved, ball_moved, mark, flip, doomed,
    wall_flip_x, wall_flip_y, paddle_hit, brick_hit, mark_bricks,
    paddle_phase, ball_phase, collision_phase, cleanup_phase,
    paddle_movement_system, ball_movement_system, ball_collision_system, cleanup_system,
};

verus! {

/// The paddle's width: 200 px.
pub const PADDLE_W: i64 = 1200;
/// The paddle's height: 20 px.
pub const PADDLE_H: i64 = 120;
/// The paddle's starting left edge: half the field width less half the
/// paddle width, so centred at 540 px.
pub const PADDLE_X0: i64 = 3240;
/// The paddle's top edge: 50 px above the field's bottom, 670 px.
pub const PADDLE_Y0: i64 = 4020;
/// The ball's starting center x: mid-field, 640 px.
pub const BALL_X0: i64 = 3840;
/// The ball's starting center y: 100 px above the bottom, 620 px.
pub const BALL_Y0: i64 = 3720;
/// A brick's width: the field less one gap, split into ten columns, less
/// one gap each: 117 px.
pub const BRICK_W: i64 = 702;
/// A brick's height: the field's upper half less one gap, split into six
/// rows, less one gap each: 48 and a third px.
pub const BRICK_H: i64 = 290;
/// The largest ball height an update accepts; far beyond the field, it
/// only keeps the frame's arithmetic inside `i64`.
pub const BALL_Y_LIMIT: i64 = 0xFFF_FFFF_FFC4;

/// The top-left corner of the brick in the given grid cell.
pub open spec fn brick_cell(col: int, row: int) -> (int, int) {
    (col * BRICK_W as int + (col + 1) * BRICK_GAP as int,
     row * BRICK_H as int + (row + 1) * BRICK_GAP as int)
}

/// Some brick entity of the store sits at the given grid cell.
pub open spec fn cell_filled(v: Map<u64, EntityRec>, col: int, row: int) -> bool {
    exists|id: u64| v.dom().contains(id) && v[id].brick
        && pt(v[id].pos) == brick_cell(col, row)
}

/// The brick-tagged entities of a store.
pub open spec fn bricks_of(v: Map<u64, EntityRec>) -> Set<u64> {
    v.dom().filter(|id: u64| v[id].brick)
}

/// How many brick entities a store holds.
pub open spec fn brick_count(v: Map<u64, EntityRec>) -> nat {
    bricks_of(v).len()
}

/// A well-formed paddle record: tagged only as a paddle, of the fixed
/// paddle size, its left edge within one step of the field, its top edge
/// inside the field.
pub open spec fn paddle_rec_ok(e: EntityRec) -> bool {
    &&& e.paddle && !e.ball && !e.brick
    &&& e.pos is Some && e.size is Some
    &&& e.dir is None && e.marked is None
    &&& pt(e.size) == (PADDLE_W as int, PADDLE_H as int)
    &&& -(PADDLE_STEP as int) < pt(e.pos).0
    &&& pt(e.pos).0 < FIELD_W as int - PADDLE_W as int + PADDLE_STEP as int
    &&& 0 <= pt(e.pos).1 <= FIELD_H as int
}

/// A well-formed ball record: tagged only as a ball, its direction a sign
/// vector, and its position within the band that one frame of movement
/// and bouncing keeps stable. The field's bottom is open: the ball leaves
/// there and the game ends.
pub open spec fn ball_rec_ok(e: EntityRec) -> bool {
    &&& e.ball && !e.paddle && !e.brick
    &&& e.pos is Some && e.dir is Some
    &&& e.size is None && e.marked is None
    &&& unit_dir(pt(e.dir))
    &&& -(BALL_STEP as int) / 2 <= pt(e.pos).0 <= FIELD_W as int + BALL_STEP as int / 2
    &&& (pt(e.dir).0 == 1 ==> pt(e.pos).0 <= FIELD_W as int - BALL_STEP as int / 2)
    &&& (pt(e.dir).0 == -1 ==> pt(e.pos).0 >= BALL_STEP as int / 2)
    &&& pt(e.pos).1 >= -(BALL_STEP as int) / 2
    &&& (pt(e.dir).1 == -1 ==> pt(e.pos).1 >= BALL_STEP as int / 2)
}

/// A well-formed brick record: tagged only as a brick, with a position, a
/// size, a lowered pending-removal flag, and bounded coordinates.
pub open spec fn brick_rec_ok(e: EntityRec) -> bool {
    &&& e.brick && !e.paddle && !e.ball
    &&& e.pos is Some && e.size is Some
    &&& e.dir is None && e.marked == Some(false)
    &&& rec_bounded(e)
}

/// The store invariant: the well-known paddle and ball handles name two
/// distinct live entities of the right shape, and every other entity is a
/// brick.
pub open spec fn wf_view(v: Map<u64, EntityRec>, paddle: u64, ball: u64) -> bool {
    &&& v.dom().finite()
    &&& v.dom().contains(paddle)
    &&& v.dom().contains(ball)
    &&& paddle != ball
    &&& paddle_rec_ok(v[paddle])
    &&& ball_rec_ok(v[ball])
    &&& forall|id: u64| #[trigger] v.dom().contains(id) && id != paddle && id != ball
            ==> brick_rec_ok(v[id])
}

/// A whole frame's effect on the store: paddle movement, ball movement,
/// the collision pass for the given ball, then brick cleanup.
pub open spec fn frame(v: Map<u64, EntityRec>, ball: u64, left: bool, right: bool) -> Map<u64, EntityRec> {
    cleanup_phase(collision_phase(ball_phase(paddle_phase(v, left, right)), ball))
}

/// The shape is the axis-aligned rectangle with that corner and extent.
pub open spec fn shape_matches_rect(s: Shape, pos: (int, int), size: (int, int)) -> bool {
    match s {
        Shape::Rectangle { x, y, w, h } => {
            (x as int, y as int) == pos && (w as int, h as int) == size
        },
        _ => false,
    }
}

/// The shape is a circle of the ball's drawn radius around that center.
pub open spec fn shape_is_circle_at(s: Shape, center: (int, int)) -> bool {
    match s {
        Shape::Circle { cx, cy, radius } => {
            (cx as int, cy as int) == center && radius == BALL_RADIUS
        },
        _ => false,
    }
}

/// The shape is the rectangle of some brick entity of the store.
pub open spec fn shape_is_some_brick(v: Map<u64, EntityRec>, s: Shape) -> bool {
    exists|id: u64| v.dom().contains(id) && full_brick(v[id])
        && shape_matches_rect(s, pt(v[id].pos), pt(v[id].size))
}

/// Some shape of the list is the rectangle of the given brick entity.
pub open spec fn brick_drawn(v: Map<u64, EntityRec>, shapes: Seq<Shape>, id: u64) -> bool {
    exists|i: int| 0 <= i < shapes.len()
        && shape_matches_rect(shapes[i], pt(v[id].pos), pt(v[id].size))
}

/// The loss condition: the ball's center has reached the field's bottom.
pub open spec fn ball_lost(v: Map<u64, EntityRec>, ball: u64) -> bool {
    pt(v[ball].pos).1 >= FIELD_H as int
}

/// One frame keeps a well-formed store well formed, and acts on each kind
/// of entity as its system says: the paddle moves by the keys, the ball
/// moves and bounces, every brick the ball's box overlaps is gone, and
/// the others are untouched.
pub proof fn lemma_frame(v: Map<u64, EntityRec>, paddle: u64, ball: u64, left: bool, right: bool)
    requires
        wf_view(v, paddle, ball),
    ensures
        wf_view(frame(v, ball, left, right), paddle, ball),
        frame(v, ball, left, right)[paddle] == paddle_moved(v[paddle], left, right),
        frame(v, ball, left, right)[ball].pos == ball_moved(v[ball]).pos,
        pt(frame(v, ball, left, right)[ball].dir).0 == (
            if wall_flip_x(pt(ball_moved(v[ball]).pos)) {
                -pt(v[ball].dir).0
            } else {
                pt(v[ball].dir).0
            }
        ),
        forall|id: u64| #[trigger] frame(v, ball, left, right).dom().contains(id)
            ==> v.dom().contains(id),
        forall|id: u64| #[trigger] frame(v, ball, left, right).dom().contains(id)
            && id != paddle && id != ball
            ==> frame(v, ball, left, right)[id] == v[id],
        forall|id: u64| #[trigger] v.dom().contains(id) && id != paddle && id != ball
            && overlaps(ball_rect(pt(ball_moved(v[ball]).pos)),
                rect_of(pt(v[id].pos), pt(v[id].size)))
            ==> !frame(v, ball, left, right).dom().contains(id),
        forall|id: u64| #[trigger] v.dom().contains(id) && id != paddle && id != ball
            && !overlaps(ball_rect(pt(ball_moved(v[ball]).pos)),
                rect_of(pt(v[id].pos), pt(v[id].size)))
            ==> frame(v, ball, left, right).dom().contains(id),
{
    let v1 = paddle_phase(v, left, right);
    let v2 = ball_phase(v1);
    let v3 = collision_phase(v2, ball);
    let v4 = cleanup_phase(v3);
    assert(v1.dom() =~= v.dom());
    assert(v2.dom() =~= v.dom());
    assert(v1[paddle] == paddle_moved(v[paddle], left, right));
    assert(v1[ball] == v[ball]);
    assert(forall|id: u64| #[trigger] v.dom().contains(id) && id != paddle && id != ball
        ==> v1[id] == v[id] && v2[id] == v[id]);
    assert(v2[paddle] == v1[paddle]);
    assert(v2[ball] == ball_moved(v[ball]));

    let c = pt(v2[ball].pos);
    let r = ball_rect(c);
    let fx = wall_flip_x(c);
    let fy = wall_flip_y(c) || paddle_hit(v2, r) || brick_hit(v2, r);
    let marked = mark_bricks(v2, r);
    assert(marked.dom() =~= v.dom());
    assert(v3 == marked.insert(ball, flip(marked[ball], fx, fy)));
    assert(marked[paddle] == v2[paddle]);
    assert(marked[ball] == v2[ball]);
    assert(v3[paddle] == paddle_moved(v[paddle], left, right));
    assert(v3[ball] == flip(ball_moved(v[ball]), fx, fy));

    assert(!doomed(v3[paddle]));
    assert(!doomed(v3[ball]));
    assert(v4.dom().contains(paddle));
    assert(v4.dom().contains(ball));
    assert(v4[paddle] == v3[paddle]);
    assert(v4[ball] == v3[ball]);
    assert(v4 == frame(v, ball, left, right));

    assert forall|id: u64| #[trigger] v4.dom().contains(id) implies v.dom().contains(id) by {}
    vstd::set_lib::lemma_len_subset(v4.dom(), v.dom());

    assert forall|id: u64| #[trigger] v4.dom().contains(id) && id != paddle && id != ball
        implies v4[id] == v[id] && brick_rec_ok(v4[id]) by {
        assert(brick_rec_ok(v[id]));
        assert(!full_paddle(v[id]) && !full_ball(v[id]));
        assert(v2[id] == v[id]);
        if full_brick(v2[id]) && overlaps(r, rect_of(pt(v2[id].pos), pt(v2[id].size))) {
            assert(v3[id] == mark(v[id]));
            assert(doomed(v3[id]));
            assert(!v4.dom().contains(id));
        }
        assert(v3[id] == v[id]);
    }

    assert forall|id: u64| #[trigger] v.dom().contains(id) && id != paddle && id != ball
        && overlaps(r, rect_of(pt(v[id].pos), pt(v[id].size)))
        implies !v4.dom().contains(id) by {
        assert(brick_rec_ok(v[id]));
        assert(full_brick(v[id]));
        assert(v2[id] == v[id]);
        assert(v3[id] == mark(v[id]));
        assert(doomed(v3[id]));
    }

    assert forall|id: u64| #[trigger] v.dom().contains(id) && id != paddle && id != ball
        && !overlaps(r, rect_of(pt(v[id].pos), pt(v[id].size)))
        implies v4.dom().contains(id) by {
        assert(brick_rec_ok(v[id]));
        assert(v2[id] == v[id]);
        assert(v3[id] == v[id]);
        assert(!doomed(v3[id]));
    }

    assert(paddle_rec_ok(v4[paddle]));
    assert(ball_rec_ok(v4[ball])) by {
        let e = v[ball];
        let m = ball_moved(e);
        assert(v4[ball] == flip(m, fx, fy));
        assert(unit_dir(pt(e.dir)));
    }
    assert(wf_view(v4, paddle, ball));
}

/// The game: the entity store and the two entities that outlive every
/// frame.
pub struct GameState {
    pub world: hecs::World,
    pub paddle: u64,
    pub ball: u64,
}

impl GameState {
    /// The store invariant, tied to this state's well-known handles.
    pub open spec fn wf(&self) -> bool {
        wf_view(world_view(self.world), self.paddle, self.ball)
    }

    /// The store's contents.
    pub open spec fn view_of(&self) -> Map<u64, EntityRec> {
        world_view(self.world)
    }

    /// Builds the initial game: the paddle centred near the bottom of the
    /// field, the ball above it moving up and to the right, and a full
    /// grid of bricks in the field's upper half.
    pub fn new() -> (g: GameState)
        ensures
            g.wf(),
            g.view_of()[g.paddle].pos == Some((PADDLE_X0 as int, PADDLE_Y0 as int)),
            g.view_of()[g.ball].pos == Some((BALL_X0 as int, BALL_Y0 as int)),
            g.view_of()[g.ball].dir == Some((1int, -1int)),
            brick_count(g.view_of()) == 60,
            forall|id: u64| #[trigger] g.view_of().dom().contains(id) && g.view_of()[id].brick
                ==> pt(g.view_of()[id].size) == (BRICK_W as int, BRICK_H as int)
                    && (exists|col: int, row: int| 0 <= col < BRICK_COLS as int
                        && 0 <= row < BRICK_ROWS as int
                        && pt(g.view_of()[id].pos) == brick_cell(col, row))
                    && 0 <= pt(g.view_of()[id].pos).0
                    && pt(g.view_of()[id].pos).0 + BRICK_W as int <= FIELD_W as int
                    && 0 <= pt(g.view_of()[id].pos).1
                    && pt(g.view_of()[id].pos).1 + BRICK_H as int <= FIELD_H as int / 2,
            forall|col: int, row: int| 0 <= col < BRICK_COLS as int && 0 <= row < BRICK_ROWS as int
                ==> #[trigger] cell_filled(g.view_of(), col, row),
    {
        let mut world = new_world();
        let paddle = spawn_paddle(
            &mut world,
            Position { x: PADDLE_X0, y: PADDLE_Y0 },
            Size { w: PADDLE_W, h: PADDLE_H },
        );
        let ball = spawn_ball(
            &mut world,
            Position { x: BALL_X0, y: BALL_Y0 },
            Direction { x: 1, y: -1 },
        );
        proof {
            assert(bricks_of(world_view(world)) =~= Set::<u64>::empty());
        }
        let ghost mut placed: Map<(int, int), u64> = Map::empty();

        let mut col: i64 = 0;
        while col < BRICK_COLS
            invariant
                0 <= col <= BRICK_COLS,
                world_view(world).dom().finite(),
                world_view(world).dom().contains(paddle),
                world_view(world).dom().contains(ball),
                paddle != ball,
                world_view(world)[paddle] == (EntityRec {
                    paddle: true,
                    ball: false,
                    brick: false,
                    pos: Some((PADDLE_X0 as int, PADDLE_Y0 as int)),
                    dir: None,
                    size: Some((PADDLE_W as int, PADDLE_H as int)),
                    marked: None,
                }),
                world_view(world)[ball] == (EntityRec {
                    paddle: false,
                    ball: true,
                    brick: false,
                    pos: Some((BALL_X0 as int, BALL_Y0 as int)),
                    dir: Some((1int, -1int)),
                    size: None,
                    marked: None,
                }),
                brick_count(world_view(world)) as int == 6 * (col as int),
                forall|id: u64| #[trigger] world_view(world).dom().contains(id)
                    && id != paddle && id != ball
                    ==> brick_rec_ok(world_view(world)[id])
                        && pt(world_view(world)[id].size) == (BRICK_W as int, BRICK_H as int)
                        && (exists|c: int, r: int| 0 <= c < col as int && 0 <= r < BRICK_ROWS as int
                            && pt(world_view(world)[id].pos) == brick_cell(c, r)),
                forall|c: int, r: int| 0 <= c < col as int && 0 <= r < BRICK_ROWS as int
                    ==> world_view(world).dom().contains(#[trigger] placed[(c, r)])
                        && world_view(world)[placed[(c, r)]].brick
                        && pt(world_view(world)[placed[(c, r)]].pos) == brick_cell(c, r),
            decreases BRICK_COLS - col,
        {
            let mut row: i64 = 0;
            while row < BRICK_ROWS
                invariant
                    0 <= col < BRICK_COLS,
                    0 <= row <= BRICK_ROWS,
                    world_view(world).dom().finite(),
                    world_view(world).dom().contains(paddle),
                    world_view(world).dom().contains(ball),
                    paddle != ball,
                    world_view(world)[paddle] == (EntityRec {
                        paddle: true,
                        ball: false,
                        brick: false,
                        pos: Some((PADDLE_X0 as int, PADDLE_Y0 as int)),
                        dir: None,
                        size: Some((PADDLE_W as int, PADDLE_H as int)),
                        marked: None,
                    }),
                    world_view(world)[ball] == (EntityRec {
                        paddle: false,
                        ball: true,
                        brick: false,
                        pos: Some((BALL_X0 as int, BALL_Y0 as int)),
                        dir: Some((1int, -1int)),
                        size: None,
                        marked: None,
                    }),
                    brick_count(world_view(world)) as int == 6 * (col as int) + row as int,
                    forall|id: u64| #[trigger] world_view(world).dom().contains(id)
                        && id != paddle && id != ball
                        ==> brick_rec_ok(world_view(world)[id])
                            && pt(world_view(world)[id].size) == (BRICK_W as int, BRICK_H as int)
                            && (exists|c: int, r: int| 0 <= c <= col as int
                                && 0 <= r < BRICK_ROWS as int
                                && (c < col as int || r < row as int)
                                && pt(world_view(world)[id].pos) == brick_cell(c, r)),
                    forall|c: int, r: int| 0 <= c <= col as int && 0 <= r < BRICK_ROWS as int
                        && (c < col as int || r < row as int)
                        ==> world_view(world).dom().contains(#[trigger] placed[(c, r)])
                            && world_view(world)[placed[(c, r)]].brick
                            && pt(world_view(world)[placed[(c, r)]].pos) == brick_cell(c, r),
                decreases BRICK_ROWS - row,
            {
                let x = col * BRICK_W + (col + 1) * BRICK_GAP;
                let y = row * BRICK_H + (row + 1) * BRICK_GAP;
                let ghost v_before = world_view(world);
                let id = spawn_brick(
                    &mut world,
                    Position { x, y },
                    Size { w: BRICK_W, h: BRICK_H },
                    false,
                );
                proof {
                    assert(pt(world_view(world)[id].pos) == brick_cell(col as int, row as int));
                    assert(!bricks_of(v_before).contains(id));
                    assert(bricks_of(world_view(world)) =~= bricks_of(v_before).insert(id));
                    v_before.dom().lemma_len_filter(|i: u64| v_before[i].brick);
                    vstd::set::axiom_set_insert_len(bricks_of(v_before), id);
                    placed = placed.insert((col as int, row as int), id);
                }
                row = row + 1;
            }
            col = col + 1;
        }
        proof {
            assert forall|id: u64| #[trigger] world_view(world).dom().contains(id)
                && world_view(world)[id].brick
                implies pt(world_view(world)[id].size) == (BRICK_W as int, BRICK_H as int)
                    && (exists|c: int, r: int| 0 <= c < BRICK_COLS as int
                        && 0 <= r < BRICK_ROWS as int
                        && pt(world_view(world)[id].pos) == brick_cell(c, r))
                    && 0 <= pt(world_view(world)[id].pos).0
                    && pt(world_view(world)[id].pos).0 + BRICK_W as int <= FIELD_W as int
                    && 0 <= pt(world_view(world)[id].pos).1
                    && pt(world_view(world)[id].pos).1 + BRICK_H as int <= FIELD_H as int / 2 by {
                assert(id != paddle && id != ball);
                let (c, r) = choose|c: int, r: int| 0 <= c < BRICK_COLS as int
                    && 0 <= r < BRICK_ROWS as int
                    && pt(world_view(world)[id].pos) == brick_cell(c, r);
                assert(brick_cell(c, r).0 == c * 702 + (c + 1) * 60);
                assert(brick_cell(c, r).1 == r * 290 + (r + 1) * 60);
            }
        }
        let g = GameState { world, paddle, ball };
        proof {
            assert(g.world == world);
            assert forall|c: int, r: int| 0 <= c < BRICK_COLS as int
                && 0 <= r < BRICK_ROWS as int
                implies #[trigger] cell_filled(g.view_of(), c, r) by {
                assert(g.view_of().dom().contains(placed[(c, r)])
                    && g.view_of()[placed[(c, r)]].brick
                    && pt(g.view_of()[placed[(c, r)]].pos) == brick_cell(c, r));
            }
        }
        g
    }

    /// One frame of the simulation, fed the held keys: paddle movement,
    /// ball movement, the collision pass, brick cleanup, then the loss
    /// check. Returns whether the game is over: the ball's center has
    /// reached the field's bottom. There is no win condition: clearing
    /// every brick leaves the ball bouncing between paddle and walls, a
    /// known gap of the game's rules kept as it is.
    pub fn update(&mut self, left_down: bool, right_down: bool) -> (quit: bool)
        requires
            old(self).wf(),
            pt(old(self).view_of()[old(self).ball].pos).1 <= BALL_Y_LIMIT as int,
        ensures
            final(self).paddle == old(self).paddle,
            final(self).ball == old(self).ball,
            final(self).view_of() == frame(
                old(self).view_of(), old(self).ball, left_down, right_down),
            final(self).wf(),
            quit == ball_lost(final(self).view_of(), final(self).ball),
    {
        let ghost v0 = world_view(self.world);
        let ghost paddle = self.paddle;
        let ghost ball = self.ball;
        proof {
            assert forall|id: u64| #[trigger] v0.dom().contains(id) && full_paddle(v0[id])
                implies rec_bounded(v0[id]) by {
                if id != paddle && id != ball {
                    assert(brick_rec_ok(v0[id]));
                }
            }
        }
        paddle_movement_system(&mut self.world, left_down, right_down);
        let ghost v1 = world_view(self.world);
        proof {
            assert(v1.dom() =~= v0.dom());
            assert(v1[ball] == v0[ball]);
            assert forall|id: u64| #[trigger] v1.dom().contains(id) && full_ball(v1[id])
                implies rec_bounded(v1[id]) && unit_dir(pt(v1[id].dir)) by {
                if id == paddle {
                    assert(v1[id] == paddle_moved(v0[id], left_down, right_down));
                    assert(!full_ball(v1[id]));
                } else if id != ball {
                    assert(brick_rec_ok(v0[id]));
                    assert(v1[id] == v0[id]);
                    assert(!full_ball(v1[id]));
                }
            }
        }
        ball_movement_system(&mut self.world);
        let ghost v2 = world_view(self.world);
        proof {
            assert(v2.dom() =~= v0.dom());
            assert(v2[ball] == ball_moved(v0[ball]));
            assert(rec_bounded(v2[ball]));
        }
        ball_collision_system(&mut self.world, self.ball);
        cleanup_system(&mut self.world);
        proof {
            lemma_frame(v0, paddle, ball, left_down, right_down);
            assert(world_view(self.world) == frame(v0, ball, left_down, right_down));
        }
        let p = get_pos(&self.world, self.ball);
        p.y >= FIELD_H
    }

    /// The shapes one frame draws, in order: every brick's rectangle,
    /// then the paddle's rectangle, then the ball as a circle around its
    /// center. The embedding program renders them; nothing here touches a
    /// screen.
    #[verifier::loop_isolation(false)]
    pub fn render_shapes(&self) -> (shapes: Vec<Shape>)
        requires
            self.wf(),
        ensures
            shapes@.len() >= 2,
            shape_matches_rect(
                shapes@[shapes@.len() - 2],
                pt(self.view_of()[self.paddle].pos),
                pt(self.view_of()[self.paddle].size),
            ),
            shape_is_circle_at(shapes@[shapes@.len() - 1], pt(self.view_of()[self.ball].pos)),
            forall|i: int| 0 <= i < shapes@.len() - 2
                ==> shape_is_some_brick(self.view_of(), #[trigger] shapes@[i]),
            forall|id: u64| #[trigger] self.view_of().dom().contains(id)
                && full_brick(self.view_of()[id])
                ==> brick_drawn(self.view_of(), shapes@.take(shapes@.len() - 2), id),
    {
        let ghost v0 = world_view(self.world);
        let mut shapes: Vec<Shape> = Vec::new();
        let bricks = brick_query(&self.world);
        let n = bricks.len();
        for k in 0..n
            invariant
                shapes@.len() == k,
                forall|i: int| 0 <= i < k ==> #[trigger] shapes@[i] == (Shape::Rectangle {
                    x: bricks@[i].1.x,
                    y: bricks@[i].1.y,
                    w: bricks@[i].2.w,
                    h: bricks@[i].2.h,
                }),
        {
            let (_id, p, s, _m) = bricks[k];
            shapes.push(Shape::Rectangle { x: p.x, y: p.y, w: s.w, h: s.h });
        }
        let ghost bseq = shapes@;
        let pp = get_pos(&self.world, self.paddle);
        let ps = get_size(&self.world, self.paddle);
        shapes.push(Shape::Rectangle { x: pp.x, y: pp.y, w: ps.w, h: ps.h });
        let bp = get_pos(&self.world, self.ball);
        shapes.push(Shape::Circle { cx: bp.x, cy: bp.y, radius: BALL_RADIUS });
        proof {
            assert(shapes@.take(shapes@.len() - 2) =~= bseq);
            assert forall|i: int| 0 <= i < shapes@.len() - 2
                implies shape_is_some_brick(v0, #[trigger] shapes@[i]) by {
                let id = bricks@[i].0;
                assert(v0.dom().contains(id) && full_brick(v0[id]));
                assert(shapes@[i] == bseq[i]);
                assert(shape_matches_rect(shapes@[i], pt(v0[id].pos), pt(v0[id].size)));
            }
            assert forall|id: u64| #[trigger] v0.dom().contains(id) && full_brick(v0[id])
                implies brick_drawn(v0, bseq, id) by {
                let i = choose|i: int| 0 <= i < bricks@.len() && #[trigger] bricks@[i].0 == id;
                assert(v0[id].pos == Some(bricks@[i].1.sp()));
                assert(v0[id].size == Some(bricks@[i].2.sp()));
                assert(shape_matches_rect(bseq[i], pt(v0[id].pos), pt(v0[id].size)));
            }
        }
        shapes
    }
}

} // verus!
