//! What is to be drawn: for each kind of entity the corners of its sprites.

use crate::scalar::Scalar;
use crate::state::{Entity, State, Status};
use crate::vector2::Vector2;
use vstd::prelude::*;

verus! {

/// A corner of a sprite: where it lies in the world, and which corner of
/// the texture belongs there.
#[derive(Clone, Copy, PartialEq, Eq, Structural, Debug)]
pub struct Vertex {
    pub position: Vector2,
    pub tex_coords: Vector2,
}

/// The sprites of a frame, sorted by the texture that they are drawn with.
pub struct SpriteBatches {
    pub cops: Vec<Vertex>,
    pub humans: Vec<Vertex>,
    pub zombies: Vec<Vertex>,
}

/// The textures.
#[derive(Clone, Copy, PartialEq, Eq, Structural, Debug)]
pub enum SpriteKind {
    Cop,
    Human,
    Zombie,
}

/// The texture that an entity is drawn with; the dead are not drawn.
pub open spec fn spec_sprite_kind(status: Status) -> Option<SpriteKind> {
    if status.spec_is_cop() {
        Some(SpriteKind::Cop)
    } else if status.spec_is_human() {
        Some(SpriteKind::Human)
    } else if status.spec_is_zombie() {
        Some(SpriteKind::Zombie)
    } else {
        None
    }
}

#[verifier::when_used_as_spec(spec_sprite_kind)]
pub fn sprite_kind(status: Status) -> (k: Option<SpriteKind>)
    ensures
        k == spec_sprite_kind(status),
{
    if status.is_cop() {
        Some(SpriteKind::Cop)
    } else if status.is_human() {
        Some(SpriteKind::Human)
    } else if status.is_zombie() {
        Some(SpriteKind::Zombie)
    } else {
        None
    }
}

/// The corner of the sprite of `entity` that lies `side` halves to the
/// right of its middle and `lift` halves up, where up is the way the entity
/// faces; `side` and `lift` are 1 or -1.
pub open spec fn spec_corner(entity: Entity, side: int, lift: int) -> Vertex {
    let up = entity.facing.spec_halved();
    let right = entity.facing.spec_right().spec_halved();
    let across = if side > 0 {
        entity.position.spec_plus(right)
    } else {
        entity.position.spec_minus(right)
    };
    Vertex {
        position: if lift > 0 {
            across.spec_plus(up)
        } else {
            across.spec_minus(up)
        },
        tex_coords: Vector2 {
            x: Scalar { raw: if side > 0 { 65536 } else { 0 } },
            y: Scalar { raw: if lift > 0 { 65536 } else { 0 } },
        },
    }
}

pub fn corner(entity: &Entity, side: i32, lift: i32) -> (v: Vertex)
    ensures
        v == spec_corner(*entity, side as int, lift as int),
{
    let up = entity.facing.halved();
    let right = entity.facing.right().halved();
    let across = if side > 0 {
        entity.position.plus(right)
    } else {
        entity.position.minus(right)
    };
    Vertex {
        position: if lift > 0 {
            across.plus(up)
        } else {
            across.minus(up)
        },
        tex_coords: Vector2 {
            x: Scalar { raw: if side > 0 { 65536 } else { 0 } },
            y: Scalar { raw: if lift > 0 { 65536 } else { 0 } },
        },
    }
}

/// The sprite of an entity: a square of side one round its place, turned
/// the way it faces, as two triangles that share the corners top right and
/// bottom left.
pub open spec fn sprite(entity: Entity) -> Seq<Vertex> {
    seq![
        spec_corner(entity, -1, 1),
        spec_corner(entity, 1, 1),
        spec_corner(entity, -1, -1),
        spec_corner(entity, 1, 1),
        spec_corner(entity, 1, -1),
        spec_corner(entity, -1, -1),
    ]
}

/// Appends the sprite of `entity` to `buffer`.
pub fn push_sprite_vertices(buffer: &mut Vec<Vertex>, entity: &Entity)
    ensures
        final(buffer)@ == old(buffer)@ + sprite(*entity),
{
    // 0      1
    // +------+
    // |    / |
    // |  /   |
    // |/     |
    // +------+
    // 2      3
    let vertex0 = corner(entity, -1, 1);
    let vertex1 = corner(entity, 1, 1);
    let vertex2 = corner(entity, -1, -1);
    let vertex3 = corner(entity, 1, -1);
    buffer.push(vertex0);
    buffer.push(vertex1);
    buffer.push(vertex2);
    buffer.push(vertex1);
    buffer.push(vertex3);
    buffer.push(vertex2);
    assert(buffer@ =~= old(buffer)@ + sprite(*entity));
}

/// The sprites of those of the first `count` entities that are drawn with
/// the texture `kind`, in the order of the entities.
pub open spec fn batch(entities: Seq<Entity>, kind: SpriteKind, count: int) -> Seq<Vertex>
    decreases count,
{
    if count <= 0 {
        Seq::empty()
    } else if spec_sprite_kind(entities[count - 1].status) == Some(kind) {
        batch(entities, kind, count - 1) + sprite(entities[count - 1])
    } else {
        batch(entities, kind, count - 1)
    }
}

/// Computes the corners, in world coordinates, of the sprites of all
/// entities that are drawn.
pub fn display(state: &State) -> (batches: SpriteBatches)
    ensures
        batches.cops@ == batch(state.entities@, SpriteKind::Cop, state.entities@.len() as int),
        batches.humans@ == batch(state.entities@, SpriteKind::Human, state.entities@.len() as int),
        batches.zombies@ == batch(
            state.entities@,
            SpriteKind::Zombie,
            state.entities@.len() as int,
        ),
{
    let mut cop_vertices: Vec<Vertex> = Vec::new();
    let mut human_vertices: Vec<Vertex> = Vec::new();
    let mut zombie_vertices: Vec<Vertex> = Vec::new();
    let count: usize = state.entities.len();
    let mut i: usize = 0;
    while i < count
        invariant
            i <= count,
            count == state.entities@.len(),
            cop_vertices@ == batch(state.entities@, SpriteKind::Cop, i as int),
            human_vertices@ == batch(state.entities@, SpriteKind::Human, i as int),
            zombie_vertices@ == batch(state.entities@, SpriteKind::Zombie, i as int),
        decreases count - i,
    {
        let entity = state.entities[i];
        match sprite_kind(entity.status) {
            Some(SpriteKind::Cop) => push_sprite_vertices(&mut cop_vertices, &entity),
            Some(SpriteKind::Human) => push_sprite_vertices(&mut human_vertices, &entity),
            Some(SpriteKind::Zombie) => push_sprite_vertices(&mut zombie_vertices, &entity),
            None => {},
        }
        i += 1;
    }
    SpriteBatches { cops: cop_vertices, humans: human_vertices, zombies: zombie_vertices }
}

} // verus!
