use kill_them_all::collisions::{
    check_if_character_is_hit, check_if_character_is_in_damage_over_time_zone,
    monster_hit_by_bullet, player_hits_bonus, player_touched_by_monster,
    stop_move_on_collision_between_characters, BulletDamage, CollisionEvent, DotChange,
    MonsterHit, GROUP_ALL, GROUP_BONUS, GROUP_BULLET, GROUP_ENEMY, GROUP_PLAYER,
};

use CollisionEvent::{Started, Stopped};

fn bullet(entity: u64, damage: u16) -> BulletDamage {
    BulletDamage { entity, damage }
}

#[test]
fn collision_groups_are_distinct_bits() {
    assert_eq!(GROUP_PLAYER, 1);
    assert_eq!(GROUP_ENEMY, 2);
    assert_eq!(GROUP_BONUS, 4);
    assert_eq!(GROUP_BULLET, 8);
    assert_eq!(GROUP_ALL, u32::MAX);
}

#[test]
fn bullets_hit_monsters_in_either_order() {
    let monsters = vec![10, 11];
    let bullets = vec![bullet(20, 3), bullet(21, 4), bullet(22, 5)];
    let events = vec![
        Started(10, 20),
        Started(21, 10),
        Stopped(11, 22),
        Started(22, 99),
    ];
    let res = monster_hit_by_bullet(&events, &monsters, &bullets).unwrap();
    assert_eq!(res.monster_hits, vec![MonsterHit { entity: 10, damage: 7 }]);
    assert_eq!(res.despawned_bullets, vec![20, 21]);
}

#[test]
fn damages_of_one_frame_add_up_per_monster() {
    let monsters = vec![10, 11];
    let bullets = vec![bullet(20, 3), bullet(21, 4)];
    let events = vec![Started(20, 11), Started(10, 21), Started(11, 21)];
    let res = monster_hit_by_bullet(&events, &monsters, &bullets).unwrap();
    assert_eq!(
        res.monster_hits,
        vec![
            MonsterHit { entity: 10, damage: 4 },
            MonsterHit { entity: 11, damage: 7 },
        ]
    );
    assert_eq!(res.despawned_bullets, vec![20, 21]);
}

#[test]
fn no_collision_no_hit() {
    let monsters = vec![10];
    let bullets = vec![bullet(20, 3)];
    let res = monster_hit_by_bullet(&vec![], &monsters, &bullets).unwrap();
    assert!(res.monster_hits.is_empty());
    assert!(res.despawned_bullets.is_empty());
    let res = monster_hit_by_bullet(&vec![Stopped(10, 20)], &monsters, &bullets).unwrap();
    assert!(res.monster_hits.is_empty());
    assert!(res.despawned_bullets.is_empty());
}

#[test]
fn despawned_bullets_touched_reported_monsters() {
    let monsters = vec![10, 11, 12];
    let bullets = vec![bullet(20, 1), bullet(21, 2), bullet(22, 3)];
    let events = vec![Started(12, 22), Started(20, 30), Started(21, 11)];
    let res = monster_hit_by_bullet(&events, &monsters, &bullets).unwrap();
    for b in &res.despawned_bullets {
        let touched = events.iter().any(|ev| {
            res.monster_hits.iter().any(|h| {
                *ev == Started(h.entity, *b) || *ev == Started(*b, h.entity)
            })
        });
        assert!(touched);
    }
    for h in &res.monster_hits {
        let touched = events.iter().any(|ev| {
            res.despawned_bullets
                .iter()
                .any(|b| *ev == Started(h.entity, *b) || *ev == Started(*b, h.entity))
        });
        assert!(touched);
    }
    assert_eq!(res.despawned_bullets, vec![21, 22]);
}

#[test]
fn player_touched_once_per_collision_start() {
    let events = vec![Started(1, 10), Started(10, 1), Started(1, 99), Stopped(1, 10)];
    let monsters = vec![10, 11];
    assert_eq!(player_touched_by_monster(&events, &monsters, Some(1)), vec![1, 1]);
    assert!(player_touched_by_monster(&events, &monsters, None).is_empty());
}

#[test]
fn player_picks_bonuses() {
    let events = vec![Started(1, 30), Started(31, 1), Started(2, 32), Stopped(1, 32)];
    let bonuses = vec![30, 31, 32];
    let res = player_hits_bonus(&events, &bonuses, Some(1), 5).unwrap();
    assert_eq!(res.money, 7);
    assert_eq!(res.despawned, vec![30, 31]);
    let res = player_hits_bonus(&events, &bonuses, None, 5).unwrap();
    assert_eq!(res.money, 5);
    assert!(res.despawned.is_empty());
}

#[test]
fn characters_hit_by_damagers() {
    let characters = vec![1, 2];
    let damagers = vec![5];
    let events = vec![Started(5, 1), Started(2, 5), Started(1, 2), Stopped(1, 5), Started(5, 6)];
    assert_eq!(
        check_if_character_is_hit(&events, &characters, &damagers),
        vec![(1, 5), (2, 5)]
    );
}

#[test]
fn damage_over_time_zone_enter_and_leave() {
    let characters = vec![1];
    let damagers = vec![5];
    let events = vec![Started(5, 1), Stopped(1, 5), Started(1, 6), Stopped(5, 5)];
    assert_eq!(
        check_if_character_is_in_damage_over_time_zone(&events, &characters, &damagers),
        vec![
            DotChange::Insert { character: 1, damager: 5 },
            DotChange::Remove { character: 1 },
        ]
    );
}

#[test]
fn colliding_characters_stop() {
    let characters = vec![1, 2];
    let events = vec![Started(1, 2), Started(1, 1), Started(1, 3), Stopped(2, 1)];
    assert_eq!(
        stop_move_on_collision_between_characters(&events, &characters),
        vec![(1, 2)]
    );
}

#[test]
fn damage_of_a_monster_overflowing_gives_none() {
    let monsters = vec![10, 11];
    let bullets = vec![bullet(20, 40000), bullet(21, 30000)];
    let events = vec![Started(10, 20), Started(21, 10)];
    assert!(monster_hit_by_bullet(&events, &monsters, &bullets).is_none());
    let events = vec![Started(10, 20), Started(21, 11)];
    let res = monster_hit_by_bullet(&events, &monsters, &bullets).unwrap();
    assert_eq!(
        res.monster_hits,
        vec![
            MonsterHit { entity: 10, damage: 40000 },
            MonsterHit { entity: 11, damage: 30000 },
        ]
    );
}

#[test]
fn money_overflowing_gives_none() {
    let events = vec![Started(1, 30), Started(1, 31)];
    let bonuses = vec![30, 31];
    assert!(player_hits_bonus(&events, &bonuses, Some(1), u16::MAX - 1).is_none());
    let res = player_hits_bonus(&events, &bonuses, Some(1), u16::MAX - 2).unwrap();
    assert_eq!(res.money, u16::MAX);
    let res = player_hits_bonus(&events, &bonuses, None, u16::MAX).unwrap();
    assert_eq!(res.money, u16::MAX);
}
