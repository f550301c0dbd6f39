use kill_them_all::collisions::{GROUP_ALL, GROUP_ENEMY};
use kill_them_all::life::Life;
use kill_them_all::player::{
    animate_sprite, level_up, on_player_hit, player_movement, skill_actions, PlayerAction,
    PlayerHitAction,
};

#[test]
fn movement_from_keys() {
    assert_eq!(player_movement(false, false, false, false), (0, 0));
    assert_eq!(player_movement(true, false, false, false), (-1, 0));
    assert_eq!(player_movement(false, true, true, false), (1, 1));
    assert_eq!(player_movement(true, true, false, false), (1, 0));
    assert_eq!(player_movement(false, false, true, true), (0, -1));
}

#[test]
fn player_survives_until_its_last_point() {
    let mut life = Life::new(3);
    let mut filters = GROUP_ALL;
    let actions = on_player_hit(&mut life, &mut filters, &vec![10, 11, 12, 13]);
    assert_eq!(
        actions,
        vec![
            PlayerHitAction::BecomeInvulnerable(10),
            PlayerHitAction::BecomeInvulnerable(11),
            PlayerHitAction::Die(12),
        ]
    );
    assert_eq!(life.life(), 0);
    assert_eq!(filters, GROUP_ALL & !GROUP_ENEMY);
}

#[test]
fn last_point_hit_kills_without_invulnerability() {
    let mut life = Life::new(1);
    let mut filters = GROUP_ALL;
    let actions = on_player_hit(&mut life, &mut filters, &vec![7]);
    assert_eq!(actions, vec![PlayerHitAction::Die(7)]);
    assert_eq!(filters, GROUP_ALL);
    assert!(life.is_dead());
}

#[test]
fn fewer_hits_than_points() {
    let mut life = Life::new(5);
    let mut filters = GROUP_ALL;
    let actions = on_player_hit(&mut life, &mut filters, &vec![1, 1]);
    assert_eq!(
        actions,
        vec![PlayerHitAction::BecomeInvulnerable(1), PlayerHitAction::BecomeInvulnerable(1)]
    );
    assert_eq!(life.life(), 3);
    assert_eq!(filters & GROUP_ENEMY, 0);
}

#[test]
fn no_hit_no_change() {
    let mut life = Life::new(5);
    let mut filters = GROUP_ALL;
    assert!(on_player_hit(&mut life, &mut filters, &vec![]).is_empty());
    assert_eq!(life.life(), 5);
    assert_eq!(filters, GROUP_ALL);
}

#[test]
fn level_up_refills_life() {
    let mut life = Life::new(10);
    life.hit(6);
    level_up(&mut life, 0);
    assert_eq!(life.life(), 4);
    level_up(&mut life, 1);
    assert_eq!(life.life(), 10);
    life.hit(9);
    level_up(&mut life, 3);
    assert_eq!(life.life(), 10);
}

#[test]
fn moving_player_cycles_frames() {
    assert_eq!(animate_sprite(0, true), 4);
    assert_eq!(animate_sprite(4, true), 8);
    assert_eq!(animate_sprite(8, true), 12);
    assert_eq!(animate_sprite(12, true), 16);
    assert_eq!(animate_sprite(16, true), 4);
    assert_eq!(animate_sprite(12, false), 0);
}

#[test]
fn skill_keys_in_order() {
    assert_eq!(
        skill_actions(true, false, true, false),
        vec![PlayerAction::Skill1, PlayerAction::Skill3]
    );
    assert_eq!(
        skill_actions(true, true, true, true),
        vec![
            PlayerAction::Skill1,
            PlayerAction::Skill2,
            PlayerAction::Skill3,
            PlayerAction::Skill4
        ]
    );
    assert!(skill_actions(false, false, false, false).is_empty());
}
