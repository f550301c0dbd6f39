use crate::math::{vec3_sub, vec3_to_xy};
use glam::{Vec2, Vec3};
use vstd::prelude::*;

verus! {

/// What is needed to spawn a bullet fired by the player toward a target.
pub struct BulletOptions {
    pub pos: Vec3,
    pub damage: u16,
    pub direction: Vec2,
    pub size: Vec2,
}

impl BulletOptions {
    /// Options of a bullet fired from `player_pos` toward `target`: the
    /// bullet starts at the player, carries `damage`, goes along the `x`/`y`
    /// part of `target - player_pos` and is placed around a player of
    /// `player_size`. The direction is computed in `f32` by glam; the
    /// contract states the other fields.
    pub fn new(player_pos: Vec3, damage: u16, player_size: Vec2, target: Vec3) -> (options: Self)
        ensures
            options.pos == player_pos,
            options.damage == damage,
            options.size == player_size,
    {
        let dir = vec3_sub(target, player_pos);
        BulletOptions { pos: player_pos, damage, direction: vec3_to_xy(dir), size: player_size }
    }
}

} // verus!
