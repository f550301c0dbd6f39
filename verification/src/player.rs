use crate::collisions::GROUP_ENEMY;
use crate::life::{points_after_hit, points_after_regen, Life};
use vstd::prelude::*;

verus! {

/// Direction the player moves to, from the arrow keys (or the numpad)
/// that are pressed: right wins over left, down wins over up.
pub open spec fn spec_player_direction(left: bool, right: bool, up: bool, down: bool) -> (i8, i8) {
    let x: i8 = if right {
        1i8
    } else if left {
        -1i8
    } else {
        0i8
    };
    let y: i8 = if down {
        -1i8
    } else if up {
        1i8
    } else {
        0i8
    };
    (x, y)
}

/// Player movement: the direction, before normalization, in which the
/// keys that are pressed move the player.
pub fn player_movement(left: bool, right: bool, up: bool, down: bool) -> (dir: (i8, i8))
    ensures
        dir == spec_player_direction(left, right, up, down),
{
    let mut x: i8 = 0;
    let mut y: i8 = 0;
    if left {
        x = -1;
    }
    if right {
        x = 1;
    }
    if up {
        y = 1;
    }
    if down {
        y = -1;
    }
    (x, y)
}

/// What a hit on the player leads to.
#[derive(Clone, Copy, Debug, PartialEq, Eq, Structural)]
pub enum PlayerHitAction {
    /// The player has no life left: despawn it and send the death event.
    Die(u64),
    /// The player survives: it becomes invulnerable to monsters and blinks.
    BecomeInvulnerable(u64),
}

/// The actions taken for the hits `events` on a player with `points` life
/// points: each hit takes one point; the hit that leaves no life kills
/// the player and the remaining hits are ignored.
pub open spec fn hit_actions(points: nat, events: Seq<u64>) -> Seq<PlayerHitAction>
    decreases events.len(),
{
    if events.len() == 0 {
        seq![]
    } else {
        let after = points_after_hit(points, 1);
        if after == 0 {
            seq![PlayerHitAction::Die(events[0])]
        } else {
            seq![PlayerHitAction::BecomeInvulnerable(events[0])] + hit_actions(
                after,
                events.drop_first(),
            )
        }
    }
}

/// Life points of the player after the hits `events`.
pub open spec fn points_after_hits(points: nat, events: Seq<u64>) -> nat
    decreases events.len(),
{
    if events.len() == 0 {
        points
    } else {
        let after = points_after_hit(points, 1);
        if after == 0 {
            0
        } else {
            points_after_hits(after, events.drop_first())
        }
    }
}

/// Collision filters of the player after the hits `events`: a hit that it
/// survives stops its collisions with the monsters.
pub open spec fn filters_after_hits(filters: u32, points: nat, events: Seq<u64>) -> u32 {
    if events.len() > 0 && points >= 2 {
        filters & !GROUP_ENEMY
    } else {
        filters
    }
}

/// Player hit: each hit event takes one life point from the player. The
/// hit that leaves it without life kills it (the remaining events are not
/// read); a hit it survives makes it invulnerable and removes the monsters
/// from its collision filters. Returns the action taken for each hit read.
pub fn on_player_hit(life: &mut Life, filters: &mut u32, events: &Vec<u64>) -> (actions: Vec<
    PlayerHitAction,
>)
    ensures
        actions@ == hit_actions(old(life).points(), events@),
        final(life).points() == points_after_hits(old(life).points(), events@),
        final(life).max_points() == old(life).max_points(),
        *final(filters) == filters_after_hits(*old(filters), old(life).points(), events@),
{
    let ghost p0 = life.points();
    let ghost f0 = *filters;
    let mut actions: Vec<PlayerHitAction> = Vec::new();
    let mut died = false;
    let mut i: usize = 0;
    proof {
        assert(events@.skip(0) =~= events@);
    }
    while i < events.len() && !died
        invariant
            0 <= i <= events.len(),
            p0 == old(life).points(),
            f0 == *old(filters),
            life.max_points() == old(life).max_points(),
            died ==> actions@ == hit_actions(p0, events@) && life.points() == points_after_hits(
                p0,
                events@,
            ),
            !died ==> actions@ + hit_actions(life.points(), events@.skip(i as int))
                == hit_actions(p0, events@),
            !died ==> points_after_hits(life.points(), events@.skip(i as int))
                == points_after_hits(p0, events@),
            !died ==> life.points() + i == p0,
            died ==> i > 0,
            !died && i > 0 ==> life.points() >= 1,
            *filters == if i > 0 && p0 >= 2 {
                f0 & !GROUP_ENEMY
            } else {
                f0
            },
        decreases events.len() - i,
    {
        let target = events[i];
        let ghost rest = events@.skip(i as int);
        proof {
            assert(rest.drop_first() =~= events@.skip(i + 1));
            assert(rest[0] == target);
        }
        let ghost old_points = life.points();
        life.hit(1);
        if life.is_dead() {
            actions.push(PlayerHitAction::Die(target));
            died = true;
            proof {
                assert(actions@ =~= hit_actions(p0, events@));
            }
        } else {
            actions.push(PlayerHitAction::BecomeInvulnerable(target));
            let f = *filters;
            proof {
                let g = f0;
                assert((g & !GROUP_ENEMY) & !GROUP_ENEMY == g & !GROUP_ENEMY) by (bit_vector);
            }
            *filters = f & !GROUP_ENEMY;
            proof {
                let prev = actions@.drop_last();
                assert(hit_actions(old_points, rest) == seq![
                    PlayerHitAction::BecomeInvulnerable(target),
                ] + hit_actions(life.points(), events@.skip(i + 1)));
                assert(actions@ + hit_actions(life.points(), events@.skip(i + 1)) =~= prev
                    + hit_actions(old_points, rest));
            }
        }
        i = i + 1;
    }
    actions
}

/// The action for a hit that the player survives.
pub open spec fn survived(target: u64) -> PlayerHitAction {
    PlayerHitAction::BecomeInvulnerable(target)
}

/// A player with `points` life points survives its first `points - 1` hits,
/// becoming invulnerable after each, and dies at hit number `points`; the
/// hits after that one are ignored. With fewer hits it survives them all
/// and keeps one life point per hit it has not taken.
pub proof fn lemma_player_dies_at_last_point(points: nat, events: Seq<u64>)
    requires
        points >= 1,
    ensures
        events.len() < points ==> {
            &&& hit_actions(points, events) == events.map_values(|e: u64| survived(e))
            &&& points_after_hits(points, events) == points - events.len()
        },
        events.len() >= points ==> {
            &&& hit_actions(points, events) == events.take(points - 1).map_values(
                |e: u64| survived(e),
            ).push(PlayerHitAction::Die(events[points - 1]))
            &&& points_after_hits(points, events) == 0
        },
    decreases events.len(),
{
    if events.len() == 0 {
        assert(hit_actions(points, events) =~= events.map_values(|e: u64| survived(e)));
    } else if points == 1 {
        assert(hit_actions(points, events) =~= events.take(0).map_values(|e: u64| survived(e)).push(
            PlayerHitAction::Die(events[0]),
        ));
    } else {
        let rest = events.drop_first();
        let after = (points - 1) as nat;
        lemma_player_dies_at_last_point(after, rest);
        if events.len() < points {
            assert(hit_actions(points, events) =~= events.map_values(|e: u64| survived(e)));
        } else {
            assert(rest[after - 1] == events[points - 1]);
            assert(hit_actions(points, events) =~= events.take(points - 1).map_values(
                |e: u64| survived(e),
            ).push(PlayerHitAction::Die(events[points - 1])));
        }
    }
}

/// Level up: each level up refills the player's life to its maximum.
pub fn level_up(life: &mut Life, level_ups: usize)
    ensures
        final(life).max_points() == old(life).max_points(),
        level_ups > 0 ==> final(life).points() == old(life).max_points(),
        level_ups == 0 ==> final(life).points() == old(life).points(),
{
    let mut i: usize = 0;
    while i < level_ups
        invariant
            0 <= i <= level_ups,
            life.max_points() == old(life).max_points(),
            i > 0 ==> life.points() == old(life).max_points(),
            i == 0 ==> life.points() == old(life).points(),
        decreases level_ups - i,
    {
        let max_life = life.max_life();
        life.regenerate(max_life);
        i = i + 1;
    }
}

/// Next atlas index of the player sprite when its animation timer fires:
/// a moving player cycles through frames 4, 8, 12, 16; a player that does
/// not move shows frame 0.
pub open spec fn spec_next_player_frame(index: usize, moving: bool) -> usize {
    if !moving {
        0
    } else if index == 4 {
        8
    } else if index == 8 {
        12
    } else if index == 12 {
        16
    } else {
        4
    }
}

/// Animate the player sprite: the next atlas index, from the current one
/// and whether the player moves.
pub fn animate_sprite(index: usize, moving: bool) -> (next: usize)
    ensures
        next == spec_next_player_frame(index, moving),
{
    if !moving {
        0
    } else {
        match index {
            4 => 8,
            8 => 12,
            12 => 16,
            16 => 4,
            _ => 4,
        }
    }
}

/// A moving player cycles through its four frames: whatever frame it
/// starts from, it shows one of 4, 8, 12, 16, four different frames in a
/// row, and comes back to the same frame four steps later.
pub proof fn lemma_player_animation_cycle(index: usize)
    ensures
        ({
            let f1 = spec_next_player_frame(index, true);
            let f2 = spec_next_player_frame(f1, true);
            let f3 = spec_next_player_frame(f2, true);
            let f4 = spec_next_player_frame(f3, true);
            &&& f1 == 4 || f1 == 8 || f1 == 12 || f1 == 16
            &&& spec_next_player_frame(f4, true) == f1
            &&& f1 != f2 && f2 != f3 && f3 != f4 && f1 != f3 && f2 != f4 && f1 != f4
        }),
{
}

/// The skill slots of the player, bound to the keys Q, W, E and R.
#[derive(Clone, Copy, Debug, PartialEq, Eq, Structural)]
pub enum PlayerAction {
    Skill1,
    Skill2,
    Skill3,
    Skill4,
}

/// The skills whose key is pressed, in the order Q, W, E, R.
pub open spec fn spec_skill_actions(q: bool, w: bool, e: bool, r: bool) -> Seq<PlayerAction> {
    (if q { seq![PlayerAction::Skill1] } else { seq![] }) + (if w {
        seq![PlayerAction::Skill2]
    } else {
        seq![]
    }) + (if e { seq![PlayerAction::Skill3] } else { seq![] }) + (if r {
        seq![PlayerAction::Skill4]
    } else {
        seq![]
    })
}

/// The skills the player activates, from the keys Q, W, E, R that are
/// pressed, in that order.
pub fn skill_actions(q: bool, w: bool, e: bool, r: bool) -> (actions: Vec<PlayerAction>)
    ensures
        actions@ == spec_skill_actions(q, w, e, r),
{
    let mut actions: Vec<PlayerAction> = Vec::new();
    if q {
        actions.push(PlayerAction::Skill1);
    }
    if w {
        actions.push(PlayerAction::Skill2);
    }
    if e {
        actions.push(PlayerAction::Skill3);
    }
    if r {
        actions.push(PlayerAction::Skill4);
    }
    proof {
        assert(actions@ =~= spec_skill_actions(q, w, e, r));
    }
    actions
}

} // verus!
