use glam::{Vec2, Vec3};
use kill_them_all::bullets::BulletOptions;

#[test]
fn bullet_goes_from_the_player_toward_the_target() {
    let player = Vec3::new(1.0, 1.0, 0.0);
    let size = Vec2::new(16.0, 32.0);
    let options = BulletOptions::new(player, 3, size, Vec3::new(3.0, 4.0, 5.0));
    assert_eq!(options.pos, player);
    assert_eq!(options.damage, 3);
    assert_eq!(options.size, size);
    assert_eq!(options.direction, Vec2::new(2.0, 3.0));
}

#[test]
fn bullet_toward_the_player_has_no_direction() {
    let player = Vec3::new(-2.0, 5.0, 1.0);
    let options = BulletOptions::new(player, 1, Vec2::ONE, player);
    assert_eq!(options.direction, Vec2::ZERO);
}
