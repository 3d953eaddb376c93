//! End-to-end tests of the simulation through its public functions, with
//! the real entity store linked. Coordinates are in fixed-point units of
//! a sixth of a pixel: 6 units = 1 px.

use breakout::geom::{Direction, Position, Rect, Shape, Size, FIELD_H, FIELD_W};
use breakout::state::GameState;
use breakout::store::{Ball, Brick, Paddle};
use breakout::systems::{ball_collision_system, ball_movement_system, paddle_movement_system};
use hecs::World;

fn spawn_ball(w: &mut World, x: i64, y: i64, dx: i64, dy: i64) -> u64 {
    w.spawn((Ball, Position { x, y }, Direction { x: dx, y: dy }))
        .to_bits()
        .get()
}

fn spawn_paddle(w: &mut World, x: i64, y: i64) -> u64 {
    w.spawn((Paddle, Position { x, y }, Size { w: 1200, h: 120 }))
        .to_bits()
        .get()
}

fn spawn_brick(w: &mut World, x: i64, y: i64, bw: i64, bh: i64) -> u64 {
    w.spawn((Brick, Position { x, y }, Size { w: bw, h: bh }, false))
        .to_bits()
        .get()
}

fn dir_of(w: &World, id: u64) -> (i64, i64) {
    let e = hecs::Entity::from_bits(id).unwrap();
    let d = w.get::<&Direction>(e).unwrap();
    (d.x, d.y)
}

fn pos_of(w: &World, id: u64) -> (i64, i64) {
    let e = hecs::Entity::from_bits(id).unwrap();
    let p = w.get::<&Position>(e).unwrap();
    (p.x, p.y)
}

/// Left-boundary breach: a ball at x = 0 moving up-left bounces to
/// up-right after one collision pass; the y direction is untouched.
#[test]
fn left_wall_flips_x_only() {
    let mut w = World::new();
    // x = 0 px, y = 300 px; direction (-0.5, -0.5) as its sign vector.
    let ball = spawn_ball(&mut w, 0, 1800, -1, -1);
    ball_collision_system(&mut w, ball);
    assert_eq!(dir_of(&w, ball), (1, -1));
}

/// A ball overlapping the paddle with direction (0.5, 0.5) leaves the
/// collision pass with direction (0.5, -0.5).
#[test]
fn paddle_hit_flips_y_only() {
    let mut w = World::new();
    spawn_paddle(&mut w, 3240, 4020);
    // Ball center inside the paddle's rectangle.
    let ball = spawn_ball(&mut w, 3600, 4050, 1, 1);
    ball_collision_system(&mut w, ball);
    assert_eq!(dir_of(&w, ball), (1, -1));
}

/// The ball reaching the field's height ends the game on that frame's
/// termination check.
#[test]
fn ball_at_field_bottom_quits() {
    let mut w = World::new();
    let paddle = spawn_paddle(&mut w, 3240, 4020);
    // y = 720 px with a downward direction; after this frame's movement
    // the ball is past the bottom and the update reports the loss.
    let ball = spawn_ball(&mut w, 3840, FIELD_H, 1, 1);
    let mut g = GameState { world: w, paddle, ball };
    assert!(g.update(false, false));
}

/// A ball above the bottom and away from everything ends no game.
#[test]
fn ball_inside_field_keeps_going() {
    let mut w = World::new();
    let paddle = spawn_paddle(&mut w, 3240, 4020);
    let ball = spawn_ball(&mut w, 3840, 3000, 1, -1);
    let mut g = GameState { world: w, paddle, ball };
    assert!(!g.update(false, false));
}

/// The fresh game: 60 bricks in a 10 by 6 grid, none overlapping, all
/// within the upper half of the field, plus the paddle and the ball.
#[test]
fn initial_grid_has_sixty_disjoint_bricks_in_upper_half() {
    let g = GameState::new();
    let shapes = g.render_shapes();
    assert_eq!(shapes.len(), 62);
    let mut bricks: Vec<Rect> = Vec::new();
    for s in shapes.iter().take(60) {
        match s {
            Shape::Rectangle { x, y, w, h } => {
                assert!(*x >= 0 && *x + *w <= FIELD_W);
                assert!(*y >= 0 && *y + *h <= FIELD_H / 2);
                bricks.push(Rect { x: *x, y: *y, w: *w, h: *h });
            }
            Shape::Circle { .. } => panic!("brick drawn as a circle"),
        }
    }
    for i in 0..bricks.len() {
        for j in 0..bricks.len() {
            if i != j {
                assert!(!bricks[i].intersects(&bricks[j]));
            }
        }
    }
    match shapes[60] {
        Shape::Rectangle { x, y, w, h } => {
            assert_eq!((x, y, w, h), (3240, 4020, 1200, 120));
        }
        Shape::Circle { .. } => panic!("paddle drawn as a circle"),
    }
    match shapes[61] {
        Shape::Circle { cx, cy, radius } => {
            assert_eq!((cx, cy, radius), (3840, 3720, 90));
        }
        Shape::Rectangle { .. } => panic!("ball drawn as a rectangle"),
    }
}

/// Exactly one paddle and one ball exist before and after a frame.
#[test]
fn one_paddle_one_ball_across_frames() {
    let mut g = GameState::new();
    for _ in 0..5 {
        g.update(false, true);
        let paddles = g
            .world
            .query::<(&Paddle, &Position)>()
            .iter()
            .count();
        let balls = g
            .world
            .query::<(&Ball, &Position)>()
            .iter()
            .count();
        assert_eq!((paddles, balls), (1, 1));
    }
}

/// Brick count never grows over many frames.
#[test]
fn brick_count_never_grows() {
    let mut g = GameState::new();
    let mut last = 60;
    for frame in 0..200 {
        let quit = g.update(frame % 3 == 0, frame % 2 == 0);
        let count = g.world.query::<(&Brick, &Position)>().iter().count();
        assert!(count <= last);
        last = count;
        if quit {
            break;
        }
    }
}

/// A brick the ball's bounding box overlaps after movement is gone from
/// the store when the frame ends, and the ball bounces off it
/// vertically.
#[test]
fn overlapped_brick_is_removed_next_frame() {
    let mut w = World::new();
    let paddle = spawn_paddle(&mut w, 3240, 4020);
    // Brick at (100 px, 100 px), 117 x 48.33 px.
    let brick = spawn_brick(&mut w, 600, 600, 702, 290);
    // After movement the ball's center is (105 px, 105 px): inside.
    let ball = spawn_ball(&mut w, 600, 600, 1, 1);
    let mut g = GameState { world: w, paddle, ball };
    g.update(false, false);
    assert!(!g.world.contains(hecs::Entity::from_bits(brick).unwrap()));
    assert_eq!(dir_of(&g.world, ball), (1, -1));
}

/// A brick hit on its side still bounces the ball vertically: the side
/// test the collision rule writes can never hold for an overlapping
/// pair, so every brick hit is treated as a top or bottom hit.
#[test]
fn side_brick_hit_still_bounces_vertically() {
    let mut w = World::new();
    // Brick spanning x in [200, 317) px, y in [90, 138.33) px.
    let brick = spawn_brick(&mut w, 1200, 540, 702, 290);
    // Ball center just left of the brick's left edge, overlapping it:
    // x-extent [192.5, 207.5) px crosses the edge at 200 px.
    let ball = spawn_ball(&mut w, 1185, 600, 1, 1);
    ball_collision_system(&mut w, ball);
    assert_eq!(dir_of(&w, ball), (1, -1));
    let e = hecs::Entity::from_bits(brick).unwrap();
    assert!(*w.get::<&bool>(e).unwrap());
}

/// Crossing the top boundary flips the y direction.
#[test]
fn top_wall_flips_y() {
    let mut w = World::new();
    let ball = spawn_ball(&mut w, 3840, 30, 1, -1);
    ball_collision_system(&mut w, ball);
    assert_eq!(dir_of(&w, ball), (1, 1));
}

/// A corner hit flips both directions in the same pass.
#[test]
fn corner_hit_flips_both() {
    let mut w = World::new();
    let ball = spawn_ball(&mut w, 30, 30, -1, -1);
    ball_collision_system(&mut w, ball);
    assert_eq!(dir_of(&w, ball), (1, 1));
}

/// Ball movement advances the position by 5 px per axis, signed.
#[test]
fn ball_moves_by_step() {
    let mut w = World::new();
    let ball = spawn_ball(&mut w, 3840, 3720, 1, -1);
    ball_movement_system(&mut w);
    assert_eq!(pos_of(&w, ball), (3870, 3690));
}

/// The paddle moves 25 px right or left while the key is held and the
/// guard allows it, and stands still otherwise.
#[test]
fn paddle_moves_by_key() {
    let mut w = World::new();
    let paddle = spawn_paddle(&mut w, 3240, 4020);
    paddle_movement_system(&mut w, false, true);
    assert_eq!(pos_of(&w, paddle), (3390, 4020));
    paddle_movement_system(&mut w, true, false);
    assert_eq!(pos_of(&w, paddle), (3240, 4020));
    paddle_movement_system(&mut w, false, false);
    assert_eq!(pos_of(&w, paddle), (3240, 4020));
}

/// At the left edge the left key no longer moves the paddle.
#[test]
fn paddle_stops_at_left_edge() {
    let mut w = World::new();
    let paddle = spawn_paddle(&mut w, 0, 4020);
    paddle_movement_system(&mut w, true, false);
    assert_eq!(pos_of(&w, paddle), (0, 4020));
}

/// At the right bound the right key no longer moves the paddle.
#[test]
fn paddle_stops_at_right_bound() {
    let mut w = World::new();
    let paddle = spawn_paddle(&mut w, FIELD_W - 1200, 4020);
    paddle_movement_system(&mut w, false, true);
    assert_eq!(pos_of(&w, paddle), (FIELD_W - 1200, 4020));
}

/// Pins the boundary overshoot the movement rule allows: within one step
/// of the right bound the guard still holds, so the paddle steps past
/// the bound by up to a step.
#[test]
fn paddle_overshoots_within_one_step_of_right_bound() {
    let mut w = World::new();
    // 1065 px: under the 1080 px bound, so the right guard passes and
    // the paddle lands at 1090 px, past the bound.
    let paddle = spawn_paddle(&mut w, 6390, 4020);
    paddle_movement_system(&mut w, false, true);
    assert_eq!(pos_of(&w, paddle), (6540, 4020));
}

/// Crossing the right boundary also negates the x direction once.
#[test]
fn right_wall_flips_x_once() {
    let mut w = World::new();
    let paddle = spawn_paddle(&mut w, 3240, 4020);
    // One movement step from crossing: 7680 - 30 + 45 > 7680 after move.
    let ball = spawn_ball(&mut w, FIELD_W - 50, 3000, 1, -1);
    let mut g = GameState { world: w, paddle, ball };
    g.update(false, false);
    assert_eq!(dir_of(&g.world, ball), (-1, -1));
    assert_eq!(pos_of(&g.world, ball), (FIELD_W - 20, 2970));
}

/// A ball falling with nothing under it leaves the field after some
/// frames, and the update reports the loss exactly then.
#[test]
fn falling_ball_ends_game() {
    let mut w = World::new();
    // The paddle stands at the far left; the ball falls on the right.
    let paddle = spawn_paddle(&mut w, 0, 4020);
    let ball = spawn_ball(&mut w, 7000, 3000, 1, 1);
    let mut g = GameState { world: w, paddle, ball };
    let mut frames = 0;
    loop {
        frames += 1;
        assert!(frames < 1000, "the ball should have fallen out");
        if g.update(false, false) {
            break;
        }
        let (_, y) = pos_of(&g.world, g.ball);
        assert!(y < FIELD_H);
    }
    let (_, y) = pos_of(&g.world, g.ball);
    assert!(y >= FIELD_H);
}
