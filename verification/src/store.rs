//! The entity store: a `hecs` world holding the game's entities, seen by
//! the verifier through [`world_view`], a map from an entity's handle bits
//! to a record of the components attached to it. Every function here that
//! touches the world is a trusted wrapper around a single `hecs` call.

use vstd::prelude::*;
use crate::geom::{Position, Direction, Size};

verus! {

/// Marker component of the paddle entity.
pub struct Paddle;

/// Marker component of the ball entity.
pub struct Ball;

/// Marker component of a brick entity. A brick also carries a bare `bool`
/// component: its pending-removal flag.
pub struct Brick;

/// One entity's attached components, at the specification level. A `None`
/// field means the entity lacks that component.
pub struct EntityRec {
    pub paddle: bool,
    pub ball: bool,
    pub brick: bool,
    pub pos: Option<(int, int)>,
    pub dir: Option<(int, int)>,
    pub size: Option<(int, int)>,
    pub marked: Option<bool>,
}

#[verifier::external_type_specification]
#[verifier::external_body]
pub struct ExWorld(hecs::World);

/// The contents of a world: each live entity's handle bits, mapped to the
/// components of this crate attached to it.
pub uninterp spec fn world_view(w: hecs::World) -> Map<u64, EntityRec>;

/// An entity matching the paddle-shaped queries: tagged [`Paddle`], with a
/// position and a size.
pub open spec fn full_paddle(e: EntityRec) -> bool {
    e.paddle && e.pos is Some && e.size is Some
}

/// An entity matching the ball-shaped queries: tagged [`Ball`], with a
/// position and a direction.
pub open spec fn full_ball(e: EntityRec) -> bool {
    e.ball && e.pos is Some && e.dir is Some
}

/// An entity matching the brick collision query: tagged [`Brick`], with a
/// position, a size and a pending-removal flag.
pub open spec fn full_brick(e: EntityRec) -> bool {
    e.brick && e.pos is Some && e.size is Some && e.marked is Some
}

/// An entity matching the cleanup query: tagged [`Brick`] with a
/// pending-removal flag.
pub open spec fn flagged_brick(e: EntityRec) -> bool {
    e.brick && e.marked is Some
}

/// Relies on hecs::World::new: a fresh world holds no entities.
#[verifier::external_body]
pub(crate) fn new_world() -> (w: hecs::World)
    ensures
        world_view(w).dom() == Set::<u64>::empty(),
{
    hecs::World::new()
}

/// Relies on hecs::World::spawn: creates an entity, distinct from every
/// live one, holding exactly the given bundle.
#[verifier::external_body]
pub(crate) fn spawn_paddle(w: &mut hecs::World, pos: Position, size: Size) -> (id: u64)
    ensures
        !world_view(*old(w)).dom().contains(id),
        world_view(*final(w)) == world_view(*old(w)).insert(id, (EntityRec {
            paddle: true,
            ball: false,
            brick: false,
            pos: Some(pos.sp()),
            dir: None,
            size: Some(size.sp()),
            marked: None,
        })),
{
    w.spawn((Paddle, pos, size)).to_bits().get()
}

/// Relies on hecs::World::spawn: creates an entity, distinct from every
/// live one, holding exactly the given bundle.
#[verifier::external_body]
pub(crate) fn spawn_ball(w: &mut hecs::World, pos: Position, dir: Direction) -> (id: u64)
    ensures
        !world_view(*old(w)).dom().contains(id),
        world_view(*final(w)) == world_view(*old(w)).insert(id, (EntityRec {
            paddle: false,
            ball: true,
            brick: false,
            pos: Some(pos.sp()),
            dir: Some(dir.sp()),
            size: None,
            marked: None,
        })),
{
    w.spawn((Ball, pos, dir)).to_bits().get()
}

/// Relies on hecs::World::spawn: creates an entity, distinct from every
/// live one, holding exactly the given bundle.
#[verifier::external_body]
pub(crate) fn spawn_brick(w: &mut hecs::World, pos: Position, size: Size, marked: bool) -> (id: u64)
    ensures
        !world_view(*old(w)).dom().contains(id),
        world_view(*final(w)) == world_view(*old(w)).insert(id, (EntityRec {
            paddle: false,
            ball: false,
            brick: true,
            pos: Some(pos.sp()),
            dir: None,
            size: Some(size.sp()),
            marked: Some(marked),
        })),
{
    w.spawn((Brick, pos, size, marked)).to_bits().get()
}

/// Relies on hecs::World::query: yields exactly the live entities that
/// have all the queried components, each once, in no stated order.
#[verifier::external_body]
pub(crate) fn paddle_query(w: &hecs::World) -> (r: Vec<(u64, Position, Size)>)
    ensures
        forall|i: int, j: int| 0 <= i < j < r@.len() ==> r@[i].0 != r@[j].0,
        forall|i: int| #![trigger r@[i]] 0 <= i < r@.len() ==> {
            &&& world_view(*w).dom().contains(r@[i].0)
            &&& world_view(*w)[r@[i].0].paddle
            &&& world_view(*w)[r@[i].0].pos == Some(r@[i].1.sp())
            &&& world_view(*w)[r@[i].0].size == Some(r@[i].2.sp())
        },
        forall|id: u64| #![trigger world_view(*w).dom().contains(id)]
            world_view(*w).dom().contains(id) && full_paddle(world_view(*w)[id])
                ==> exists|i: int| 0 <= i < r@.len() && #[trigger] r@[i].0 == id,
{
    let mut r = Vec::new();
    for (e, _t, p, s) in w.query::<(hecs::Entity, &Paddle, &Position, &Size)>().iter() {
        r.push((e.to_bits().get(), *p, *s));
    }
    r
}

/// Relies on hecs::World::query: yields exactly the live entities that
/// have all the queried components, each once, in no stated order.
#[verifier::external_body]
pub(crate) fn ball_query(w: &hecs::World) -> (r: Vec<(u64, Position, Direction)>)
    ensures
        forall|i: int, j: int| 0 <= i < j < r@.len() ==> r@[i].0 != r@[j].0,
        forall|i: int| #![trigger r@[i]] 0 <= i < r@.len() ==> {
            &&& world_view(*w).dom().contains(r@[i].0)
            &&& world_view(*w)[r@[i].0].ball
            &&& world_view(*w)[r@[i].0].pos == Some(r@[i].1.sp())
            &&& world_view(*w)[r@[i].0].dir == Some(r@[i].2.sp())
        },
        forall|id: u64| #![trigger world_view(*w).dom().contains(id)]
            world_view(*w).dom().contains(id) && full_ball(world_view(*w)[id])
                ==> exists|i: int| 0 <= i < r@.len() && #[trigger] r@[i].0 == id,
{
    let mut r = Vec::new();
    for (e, _t, p, d) in w.query::<(hecs::Entity, &Ball, &Position, &Direction)>().iter() {
        r.push((e.to_bits().get(), *p, *d));
    }
    r
}

/// Relies on hecs::World::query: yields exactly the live entities that
/// have all the queried components, each once, in no stated order.
#[verifier::external_body]
pub(crate) fn brick_query(w: &hecs::World) -> (r: Vec<(u64, Position, Size, bool)>)
    ensures
        forall|i: int, j: int| 0 <= i < j < r@.len() ==> r@[i].0 != r@[j].0,
        forall|i: int| #![trigger r@[i]] 0 <= i < r@.len() ==> {
            &&& world_view(*w).dom().contains(r@[i].0)
            &&& world_view(*w)[r@[i].0].brick
            &&& world_view(*w)[r@[i].0].pos == Some(r@[i].1.sp())
            &&& world_view(*w)[r@[i].0].size == Some(r@[i].2.sp())
            &&& world_view(*w)[r@[i].0].marked == Some(r@[i].3)
        },
        forall|id: u64| #![trigger world_view(*w).dom().contains(id)]
            world_view(*w).dom().contains(id) && full_brick(world_view(*w)[id])
                ==> exists|i: int| 0 <= i < r@.len() && #[trigger] r@[i].0 == id,
{
    let mut r = Vec::new();
    for (e, _t, p, s, m) in w.query::<(hecs::Entity, &Brick, &Position, &Size, &bool)>().iter() {
        r.push((e.to_bits().get(), *p, *s, *m));
    }
    r
}

/// Relies on hecs::World::query: yields exactly the live entities that
/// have all the queried components, each once, in no stated order.
#[verifier::external_body]
pub(crate) fn brick_flag_query(w: &hecs::World) -> (r: Vec<(u64, bool)>)
    ensures
        forall|i: int, j: int| 0 <= i < j < r@.len() ==> r@[i].0 != r@[j].0,
        forall|i: int| #![trigger r@[i]] 0 <= i < r@.len() ==> {
            &&& world_view(*w).dom().contains(r@[i].0)
            &&& world_view(*w)[r@[i].0].brick
            &&& world_view(*w)[r@[i].0].marked == Some(r@[i].1)
        },
        forall|id: u64| #![trigger world_view(*w).dom().contains(id)]
            world_view(*w).dom().contains(id) && flagged_brick(world_view(*w)[id])
                ==> exists|i: int| 0 <= i < r@.len() && #[trigger] r@[i].0 == id,
{
    let mut r = Vec::new();
    for (e, _t, m) in w.query::<(hecs::Entity, &Brick, &bool)>().iter() {
        r.push((e.to_bits().get(), *m));
    }
    r
}

/// Relies on hecs::World::get: returns the entity's component.
#[verifier::external_body]
pub(crate) fn get_pos(w: &hecs::World, id: u64) -> (p: Position)
    requires
        world_view(*w).dom().contains(id),
        world_view(*w)[id].pos is Some,
    ensures
        world_view(*w)[id].pos == Some(p.sp()),
{
    *w.get::<&Position>(hecs::Entity::from_bits(id).unwrap()).unwrap()
}

/// Relies on hecs::World::get: returns the entity's component.
#[verifier::external_body]
pub(crate) fn get_size(w: &hecs::World, id: u64) -> (s: Size)
    requires
        world_view(*w).dom().contains(id),
        world_view(*w)[id].size is Some,
    ensures
        world_view(*w)[id].size == Some(s.sp()),
{
    *w.get::<&Size>(hecs::Entity::from_bits(id).unwrap()).unwrap()
}

/// Relies on hecs::World::get: returns the entity's component.
#[verifier::external_body]
pub(crate) fn get_dir(w: &hecs::World, id: u64) -> (d: Direction)
    requires
        world_view(*w).dom().contains(id),
        world_view(*w)[id].dir is Some,
    ensures
        world_view(*w)[id].dir == Some(d.sp()),
{
    *w.get::<&Direction>(hecs::Entity::from_bits(id).unwrap()).unwrap()
}

/// Relies on hecs::World::get with a mutable component reference: writes
/// the entity's component, touching nothing else.
#[verifier::external_body]
pub(crate) fn set_pos(w: &mut hecs::World, id: u64, p: Position)
    requires
        world_view(*old(w)).dom().contains(id),
        world_view(*old(w))[id].pos is Some,
    ensures
        world_view(*final(w)) == world_view(*old(w)).insert(id, (EntityRec {
            pos: Some(p.sp()),
            ..world_view(*old(w))[id]
        })),
{
    *w.get::<&mut Position>(hecs::Entity::from_bits(id).unwrap()).unwrap() = p;
}

/// Relies on hecs::World::get with a mutable component reference: writes
/// the entity's component, touching nothing else.
#[verifier::external_body]
pub(crate) fn set_dir(w: &mut hecs::World, id: u64, d: Direction)
    requires
        world_view(*old(w)).dom().contains(id),
        world_view(*old(w))[id].dir is Some,
    ensures
        world_view(*final(w)) == world_view(*old(w)).insert(id, (EntityRec {
            dir: Some(d.sp()),
            ..world_view(*old(w))[id]
        })),
{
    *w.get::<&mut Direction>(hecs::Entity::from_bits(id).unwrap()).unwrap() = d;
}

/// Relies on hecs::World::get with a mutable component reference: writes
/// the entity's pending-removal flag, touching nothing else.
#[verifier::external_body]
pub(crate) fn set_flag(w: &mut hecs::World, id: u64, m: bool)
    requires
        world_view(*old(w)).dom().contains(id),
        world_view(*old(w))[id].marked is Some,
    ensures
        world_view(*final(w)) == world_view(*old(w)).insert(id, (EntityRec {
            marked: Some(m),
            ..world_view(*old(w))[id]
        })),
{
    *w.get::<&mut bool>(hecs::Entity::from_bits(id).unwrap()).unwrap() = m;
}

/// Relies on hecs::World::despawn: removes the entity and its components.
#[verifier::external_body]
pub(crate) fn despawn(w: &mut hecs::World, id: u64)
    requires
        world_view(*old(w)).dom().contains(id),
    ensures
        world_view(*final(w)) == world_view(*old(w)).remove(id),
{
    let _ = w.despawn(hecs::Entity::from_bits(id).unwrap());
}

} // verus!
