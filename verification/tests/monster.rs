use glam::Vec2;
use kill_them_all::life::Life;
use kill_them_all::monster::{
    animate_sprite, increment_score, monster_spawning_timer, on_monster_hit, rarity_from_roll,
    MonsterHitEvent, MonsterLife, MonsterRarity, MonsterSpawnParams, MonsterSpawningConfig,
    KIND_COUNT,
};

#[test]
fn one_roll_out_of_five_gives_a_rare_monster() {
    assert_eq!(rarity_from_roll(0), MonsterRarity::Rare);
    for roll in 1..5 {
        assert_eq!(rarity_from_roll(roll), MonsterRarity::Normal);
    }
}

#[test]
fn monster_life_by_rarity() {
    let pos = Vec2::new(1.0, 2.0);
    let normal = MonsterSpawnParams::from_rolls(pos, 3, 2);
    assert_eq!(normal.rarity, MonsterRarity::Normal);
    assert_eq!(normal.kind, 2);
    assert_eq!(normal.pos, pos);
    assert_eq!(normal.life(), 2);
    let rare = MonsterSpawnParams::from_rolls(pos, 0, 0);
    assert_eq!(rare.rarity, MonsterRarity::Rare);
    assert_eq!(rare.life(), 5);
}

#[test]
fn random_monster_has_a_known_kind() {
    let pos = Vec2::new(-3.0, 4.0);
    for _ in 0..200 {
        let params = MonsterSpawnParams::rand(pos);
        assert!(params.kind < KIND_COUNT);
        assert_eq!(params.pos, pos);
    }
}

#[test]
fn waves_grow_by_one_monster() {
    let mut config = MonsterSpawningConfig::default();
    assert_eq!(config.enemy_count, 3);
    assert_eq!(monster_spawning_timer(&mut config, false), 0);
    assert_eq!(config.enemy_count, 3);
    assert_eq!(monster_spawning_timer(&mut config, true), 3);
    assert_eq!(monster_spawning_timer(&mut config, true), 4);
    assert_eq!(monster_spawning_timer(&mut config, false), 0);
    assert_eq!(monster_spawning_timer(&mut config, true), 5);
    assert_eq!(config.enemy_count, 6);
}

#[test]
fn monsters_lose_life_and_die() {
    let mut monsters = vec![
        MonsterLife { entity: 10, life: Life::new(2) },
        MonsterLife { entity: 11, life: Life::new(5) },
    ];
    let events = vec![
        MonsterHitEvent { entity: 10, damage: 1 },
        MonsterHitEvent { entity: 11, damage: 2 },
        MonsterHitEvent { entity: 12, damage: 9 },
        MonsterHitEvent { entity: 10, damage: 1 },
    ];
    let dead = on_monster_hit(&events, &mut monsters);
    assert_eq!(dead, vec![10]);
    assert_eq!(monsters[0].life.life(), 0);
    assert_eq!(monsters[1].life.life(), 3);
    assert_eq!(monsters[1].life.max_life(), 5);
}

#[test]
fn a_dead_monster_hit_again_dies_again() {
    let mut monsters = vec![MonsterLife { entity: 10, life: Life::new(1) }];
    let events = vec![
        MonsterHitEvent { entity: 10, damage: 3 },
        MonsterHitEvent { entity: 10, damage: 1 },
    ];
    assert_eq!(on_monster_hit(&events, &mut monsters), vec![10, 10]);
}

#[test]
fn score_counts_deaths() {
    assert_eq!(increment_score(5, 3), Some(8));
    assert_eq!(increment_score(0, 0), Some(0));
    assert_eq!(increment_score(u16::MAX - 1, 1), Some(u16::MAX));
    assert_eq!(increment_score(u16::MAX - 1, 2), None);
}

#[test]
fn moving_monster_cycles_frames() {
    assert_eq!(animate_sprite(0, true), 4);
    assert_eq!(animate_sprite(4, true), 8);
    assert_eq!(animate_sprite(8, true), 12);
    assert_eq!(animate_sprite(12, true), 0);
    assert_eq!(animate_sprite(7, true), 0);
    assert_eq!(animate_sprite(8, false), 0);
}
