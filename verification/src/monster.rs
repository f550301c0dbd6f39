use crate::life::{points_after_hit, Life};
use crate::random::random_below;
use glam::Vec2;
use vstd::prelude::*;

verus! {

/// Number of kinds of monsters (each with its own sprite sheet).
pub const KIND_COUNT: usize = 3;

/// Rarity of a monster: rare monsters are bigger and have more life.
#[derive(Clone, Copy, Debug, PartialEq, Eq, Structural)]
pub enum MonsterRarity {
    Normal,
    Rare,
}

/// Rarity drawn from a roll in `0..5`: one chance out of five to be rare.
pub open spec fn spec_rarity_from_roll(roll: u32) -> MonsterRarity {
    if roll == 0 {
        MonsterRarity::Rare
    } else {
        MonsterRarity::Normal
    }
}

/// Rarity of a monster drawn from a roll in `0..5`: `0` gives a rare monster.
pub fn rarity_from_roll(roll: u32) -> (rarity: MonsterRarity)
    ensures
        rarity == spec_rarity_from_roll(roll),
{
    match roll {
        0 => MonsterRarity::Rare,
        _ => MonsterRarity::Normal,
    }
}

/// Life points of a monster of rarity `rarity`.
pub open spec fn spec_monster_life(rarity: MonsterRarity) -> u16 {
    match rarity {
        MonsterRarity::Normal => 2,
        MonsterRarity::Rare => 5,
    }
}

/// What is needed to spawn a monster.
pub struct MonsterSpawnParams {
    pub pos: Vec2,
    pub rarity: MonsterRarity,
    pub kind: usize,
}

impl MonsterSpawnParams {
    /// Parameters of a monster at `pos`, whose rarity is drawn from
    /// `rarity_roll` (in `0..5`) and whose kind is `kind` (in `0..KIND_COUNT`).
    pub fn from_rolls(pos: Vec2, rarity_roll: u32, kind: usize) -> (params: Self)
        ensures
            params.pos == pos,
            params.rarity == spec_rarity_from_roll(rarity_roll),
            params.kind == kind,
    {
        MonsterSpawnParams { pos, rarity: rarity_from_roll(rarity_roll), kind }
    }

    /// Random parameters of a monster at `pos`: one chance out of five to be
    /// rare, and a kind drawn among the `KIND_COUNT` kinds.
    pub fn rand(pos: Vec2) -> (params: Self)
        ensures
            params.pos == pos,
            params.kind < KIND_COUNT,
    {
        let rarity_roll = random_below(5);
        let kind = random_below(3);
        Self::from_rolls(pos, rarity_roll, kind as usize)
    }

    /// Life points of the monster: 2 for a normal monster, 5 for a rare one.
    pub fn life(&self) -> (life: u16)
        ensures
            life == spec_monster_life(self.rarity),
    {
        match self.rarity {
            MonsterRarity::Normal => 2,
            MonsterRarity::Rare => 5,
        }
    }
}

/// State of the monster waves: how many monsters the next wave spawns.
pub struct MonsterSpawningConfig {
    pub enemy_count: u16,
}

impl MonsterSpawningConfig {
    /// The first wave spawns three monsters.
    pub fn default() -> (config: Self)
        ensures
            config.enemy_count == 3,
    {
        MonsterSpawningConfig { enemy_count: 3 }
    }
}

/// Number of monsters spawned when the wave timer has (or has not) finished.
pub open spec fn spec_wave_size(enemy_count: u16, timer_finished: bool) -> nat {
    if timer_finished {
        enemy_count as nat
    } else {
        0
    }
}

/// Number of monsters of the next wave, once the wave timer has (or has not) finished.
pub open spec fn spec_next_enemy_count(enemy_count: u16, timer_finished: bool) -> nat {
    if timer_finished {
        (enemy_count + 1) as nat
    } else {
        enemy_count as nat
    }
}

/// Spawn monsters at timer times: when the wave timer finishes, the wave
/// spawns `enemy_count` monsters and the next wave will spawn one more.
/// Returns the number of monsters to spawn now.
pub fn monster_spawning_timer(config: &mut MonsterSpawningConfig, timer_finished: bool) -> (spawned:
    u16)
    requires
        timer_finished ==> old(config).enemy_count < u16::MAX,
    ensures
        spawned == spec_wave_size(old(config).enemy_count, timer_finished),
        final(config).enemy_count == spec_next_enemy_count(old(config).enemy_count, timer_finished),
{
    if timer_finished {
        let spawned = config.enemy_count;
        config.enemy_count = config.enemy_count + 1;
        spawned
    } else {
        0
    }
}

/// Number of monsters the next wave spawns after `waves` finished waves.
pub open spec fn enemy_count_after_waves(waves: nat) -> nat
    decreases waves,
{
    if waves == 0 {
        3
    } else {
        spec_next_enemy_count(enemy_count_after_waves((waves - 1) as nat) as u16, true)
    }
}

/// Each wave spawns one more monster than the previous one: the wave that
/// follows `waves` finished waves spawns `3 + waves` monsters.
pub proof fn lemma_waves_grow(waves: nat)
    requires
        3 + waves <= u16::MAX,
    ensures
        enemy_count_after_waves(waves) == 3 + waves,
        spec_wave_size(enemy_count_after_waves(waves) as u16, true) == 3 + waves,
    decreases waves,
{
    if waves > 0 {
        lemma_waves_grow((waves - 1) as nat);
    }
}

/// A monster and its life.
#[derive(Clone, Copy)]
pub struct MonsterLife {
    pub entity: u64,
    pub life: Life,
}

/// A hit on a monster, with the damage dealt.
#[derive(Clone, Copy, Debug, PartialEq, Eq, Structural)]
pub struct MonsterHitEvent {
    pub entity: u64,
    pub damage: u16,
}

/// The entity and current life points of each monster.
pub open spec fn life_points(monsters: Seq<MonsterLife>) -> Seq<(u64, nat)> {
    monsters.map_values(|m: MonsterLife| (m.entity, m.life.points()))
}

/// Monsters after the hit `ev`: the monster it targets loses its damage.
pub open spec fn after_hit(state: Seq<(u64, nat)>, ev: MonsterHitEvent) -> Seq<(u64, nat)> {
    state.map_values(
        |m: (u64, nat)|
            if m.0 == ev.entity {
                (m.0, points_after_hit(m.1, ev.damage))
            } else {
                m
            },
    )
}

/// The monsters that `ev` leaves without life: one death per monster hit
/// that has no life point after the hit, in the order of the monsters.
pub open spec fn hit_deaths(state: Seq<(u64, nat)>, ev: MonsterHitEvent) -> Seq<u64>
    decreases state.len(),
{
    if state.len() == 0 {
        seq![]
    } else {
        let prev = hit_deaths(state.drop_last(), ev);
        let m = state.last();
        if m.0 == ev.entity && points_after_hit(m.1, ev.damage) == 0 {
            prev.push(m.0)
        } else {
            prev
        }
    }
}

/// Monsters after all the hits of `events`, one after the other.
pub open spec fn after_hits(state: Seq<(u64, nat)>, events: Seq<MonsterHitEvent>) -> Seq<(u64, nat)>
    decreases events.len(),
{
    if events.len() == 0 {
        state
    } else {
        after_hit(after_hits(state, events.drop_last()), events.last())
    }
}

/// The death events sent while applying the hits of `events`, in order.
pub open spec fn deaths(state: Seq<(u64, nat)>, events: Seq<MonsterHitEvent>) -> Seq<u64>
    decreases events.len(),
{
    if events.len() == 0 {
        seq![]
    } else {
        deaths(state, events.drop_last()) + hit_deaths(
            after_hits(state, events.drop_last()),
            events.last(),
        )
    }
}

/// Monster hit: each hit event takes its damage from the monster it
/// targets; a monster left without life after a hit sends a death event.
/// Returns the monsters of the death events, in order.
pub fn on_monster_hit(events: &Vec<MonsterHitEvent>, monsters: &mut Vec<MonsterLife>) -> (dead:
    Vec<u64>)
    ensures
        final(monsters)@.len() == old(monsters)@.len(),
        life_points(final(monsters)@) == after_hits(life_points(old(monsters)@), events@),
        forall|k: int|
            0 <= k < final(monsters)@.len() ==> #[trigger] final(monsters)@[k].life.max_points()
                == old(monsters)@[k].life.max_points(),
        dead@ == deaths(life_points(old(monsters)@), events@),
{
    let ghost start = life_points(monsters@);
    let mut dead: Vec<u64> = Vec::new();
    let mut i: usize = 0;
    while i < events.len()
        invariant
            0 <= i <= events.len(),
            monsters@.len() == old(monsters)@.len(),
            start == life_points(old(monsters)@),
            life_points(monsters@) == after_hits(start, events@.take(i as int)),
            forall|k: int|
                0 <= k < monsters@.len() ==> #[trigger] monsters@[k].life.max_points()
                    == old(monsters)@[k].life.max_points(),
            dead@ == deaths(start, events@.take(i as int)),
        decreases events.len() - i,
    {
        let ev = events[i];
        let ghost before = life_points(monsters@);
        proof {
            assert(events@.take(i + 1).drop_last() =~= events@.take(i as int));
        }
        let mut j: usize = 0;
        while j < monsters.len()
            invariant
                0 <= i < events.len(),
                0 <= j <= monsters@.len(),
                ev == events@[i as int],
                monsters@.len() == old(monsters)@.len(),
                before.len() == monsters@.len(),
                forall|k: int|
                    0 <= k < j ==> #[trigger] life_points(monsters@)[k] == after_hit(before, ev)[k],
                forall|k: int|
                    j <= k < monsters@.len() ==> #[trigger] life_points(monsters@)[k] == before[k],
                forall|k: int|
                    0 <= k < monsters@.len() ==> #[trigger] monsters@[k].life.max_points()
                        == old(monsters)@[k].life.max_points(),
                dead@ == deaths(start, events@.take(i as int)) + hit_deaths(
                    before.take(j as int),
                    ev,
                ),
            decreases monsters.len() - j,
        {
            proof {
                assert(before.take(j + 1).drop_last() =~= before.take(j as int));
            }
            let ghost prev = monsters@;
            proof {
                assert(life_points(prev)[j as int] == before[j as int]);
            }
            if monsters[j].entity == ev.entity {
                let mut m = monsters[j];
                m.life.hit(ev.damage);
                let is_dead = m.life.is_dead();
                monsters.set(j, m);
                if is_dead {
                    dead.push(ev.entity);
                }
                proof {
                    assert(monsters@ == prev.update(j as int, m));
                    assert forall|k: int| 0 <= k < monsters@.len() && k != j implies #[trigger] life_points(monsters@)[k] == life_points(prev)[k] by {
                        assert(monsters@[k] == prev[k]);
                    }
                    assert(life_points(monsters@)[j as int] == (m.entity, m.life.points()));
                    assert(life_points(monsters@)[j as int] == after_hit(before, ev)[j as int]);
                }
            } else {
                proof {
                    assert(life_points(monsters@)[j as int] == before[j as int]);
                    assert(life_points(monsters@)[j as int].0 == monsters@[j as int].entity);
                    assert(life_points(monsters@)[j as int] == after_hit(before, ev)[j as int]);
                }
            }
            j = j + 1;
        }
        proof {
            assert(life_points(monsters@) =~= after_hit(before, ev));
            assert(before.take(before.len() as int) =~= before);
        }
        i = i + 1;
    }
    proof {
        assert(events@.take(events.len() as int) =~= events@);
    }
    dead
}

/// Increment score when monsters die: one point per death. `None` when the
/// score would overflow its `u16`.
pub fn increment_score(score: u16, deaths: usize) -> (new_score: Option<u16>)
    ensures
        new_score is None <==> score + deaths > u16::MAX,
        new_score matches Some(s) ==> s == score + deaths,
{
    let mut new_score = score;
    let mut i: usize = 0;
    while i < deaths
        invariant
            0 <= i <= deaths,
            new_score == score + i,
        decreases deaths - i,
    {
        match new_score.checked_add(1) {
            Some(s) => {
                new_score = s;
            },
            None => {
                return None;
            },
        }
        i = i + 1;
    }
    Some(new_score)
}

/// Next atlas index of a monster sprite when its animation timer fires:
/// a moving monster cycles through frames 0, 4, 8, 12; a monster that does
/// not move shows frame 0.
pub open spec fn spec_next_monster_frame(index: usize, moving: bool) -> usize {
    if !moving {
        0
    } else if index == 0 {
        4
    } else if index == 4 {
        8
    } else if index == 8 {
        12
    } else {
        0
    }
}

/// Animate the monster sprite: the next atlas index, from the current one
/// and whether the monster moves.
pub fn animate_sprite(index: usize, moving: bool) -> (next: usize)
    ensures
        next == spec_next_monster_frame(index, moving),
{
    if !moving {
        0
    } else {
        match index {
            0 => 4,
            4 => 8,
            8 => 12,
            12 => 0,
            _ => 0,
        }
    }
}

/// A moving monster cycles through its four frames: whatever frame it
/// starts from, it shows one of 0, 4, 8, 12, four different frames in a
/// row, and comes back to the same frame four steps later.
pub proof fn lemma_monster_animation_cycle(index: usize)
    ensures
        ({
            let f1 = spec_next_monster_frame(index, true);
            let f2 = spec_next_monster_frame(f1, true);
            let f3 = spec_next_monster_frame(f2, true);
            let f4 = spec_next_monster_frame(f3, true);
            &&& f1 == 0 || f1 == 4 || f1 == 8 || f1 == 12
            &&& spec_next_monster_frame(f4, true) == f1
            &&& f1 != f2 && f2 != f3 && f3 != f4 && f1 != f3 && f2 != f4 && f1 != f4
        }),
{
}

} // verus!
