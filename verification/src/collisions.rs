use vstd::prelude::*;

verus! {

/// Collision group of the player (the physics engine's `Group::GROUP_1` bit).
pub const GROUP_PLAYER: u32 = 1;

/// Collision group of the monsters (`Group::GROUP_2`).
pub const GROUP_ENEMY: u32 = 2;

/// Collision group of the bonuses (`Group::GROUP_3`).
pub const GROUP_BONUS: u32 = 4;

/// Collision group of the bullets (`Group::GROUP_4`).
pub const GROUP_BULLET: u32 = 8;

/// Every collision group (`Group::ALL`).
pub const GROUP_ALL: u32 = 0xffff_ffff;

/// A collision event of the physics engine, between two entities.
#[derive(Clone, Copy, Debug, PartialEq, Eq, Structural)]
pub enum CollisionEvent {
    Started(u64, u64),
    Stopped(u64, u64),
}

/// A bullet and the damage it carries.
#[derive(Clone, Copy, Debug, PartialEq, Eq, Structural)]
pub struct BulletDamage {
    pub entity: u64,
    pub damage: u16,
}

/// A monster hit by bullets during one frame, and the sum of their damages.
#[derive(Clone, Copy, Debug, PartialEq, Eq, Structural)]
pub struct MonsterHit {
    pub entity: u64,
    pub damage: u16,
}

/// What the collisions of one frame do to monsters and bullets.
pub struct BulletHits {
    /// One entry per monster hit, in the order of the monsters.
    pub monster_hits: Vec<MonsterHit>,
    /// The bullets that hit a monster, to despawn, in the order of the bullets.
    pub despawned_bullets: Vec<u64>,
}

/// `ev` is the start of a collision between `a` and `b`, in either order.
pub open spec fn touches(ev: CollisionEvent, a: u64, b: u64) -> bool {
    match ev {
        CollisionEvent::Started(e1, e2) => (e1 == a && e2 == b) || (e1 == b && e2 == a),
        CollisionEvent::Stopped(_, _) => false,
    }
}

/// Damage that the bullets of `bullets` touching `monster` in `ev` deal to it.
pub open spec fn event_damage(ev: CollisionEvent, monster: u64, bullets: Seq<BulletDamage>) -> int
    decreases bullets.len(),
{
    if bullets.len() == 0 {
        0
    } else {
        event_damage(ev, monster, bullets.drop_last()) + if touches(
            ev,
            monster,
            bullets.last().entity,
        ) {
            bullets.last().damage as int
        } else {
            0
        }
    }
}

/// `ev` is the start of a collision between `monster` and one of `bullets`.
pub open spec fn event_hits(ev: CollisionEvent, monster: u64, bullets: Seq<BulletDamage>) -> bool
    decreases bullets.len(),
{
    if bullets.len() == 0 {
        false
    } else {
        event_hits(ev, monster, bullets.drop_last()) || touches(ev, monster, bullets.last().entity)
    }
}

/// Sum of the damages that the bullets deal to `monster` over all `events`:
/// a bullet counts once per collision start with the monster.
pub open spec fn total_damage(
    events: Seq<CollisionEvent>,
    monster: u64,
    bullets: Seq<BulletDamage>,
) -> int
    decreases events.len(),
{
    if events.len() == 0 {
        0
    } else {
        total_damage(events.drop_last(), monster, bullets) + event_damage(
            events.last(),
            monster,
            bullets,
        )
    }
}

/// Some collision of `events` starts between `monster` and one of `bullets`.
pub open spec fn is_hit(events: Seq<CollisionEvent>, monster: u64, bullets: Seq<BulletDamage>) -> bool
    decreases events.len(),
{
    if events.len() == 0 {
        false
    } else {
        is_hit(events.drop_last(), monster, bullets) || event_hits(events.last(), monster, bullets)
    }
}

/// `ev` is the start of a collision between `bullet` and one of `monsters`.
pub open spec fn event_touches_monster(ev: CollisionEvent, bullet: u64, monsters: Seq<u64>) -> bool
    decreases monsters.len(),
{
    if monsters.len() == 0 {
        false
    } else {
        event_touches_monster(ev, bullet, monsters.drop_last()) || touches(
            ev,
            monsters.last(),
            bullet,
        )
    }
}

/// Some collision of `events` starts between `bullet` and one of `monsters`.
pub open spec fn bullet_touched(events: Seq<CollisionEvent>, bullet: u64, monsters: Seq<u64>) -> bool
    decreases events.len(),
{
    if events.len() == 0 {
        false
    } else {
        bullet_touched(events.drop_last(), bullet, monsters) || event_touches_monster(
            events.last(),
            bullet,
            monsters,
        )
    }
}

/// The monsters hit by a bullet, each with the sum of the damages it takes,
/// in the order of `monsters`.
pub open spec fn expected_monster_hits(
    events: Seq<CollisionEvent>,
    monsters: Seq<u64>,
    bullets: Seq<BulletDamage>,
) -> Seq<MonsterHit>
    decreases monsters.len(),
{
    if monsters.len() == 0 {
        seq![]
    } else {
        let prev = expected_monster_hits(events, monsters.drop_last(), bullets);
        let m = monsters.last();
        if is_hit(events, m, bullets) {
            prev.push(MonsterHit { entity: m, damage: total_damage(events, m, bullets) as u16 })
        } else {
            prev
        }
    }
}

/// The bullets that touched a monster, in the order of `bullets`.
pub open spec fn expected_despawned_bullets(
    events: Seq<CollisionEvent>,
    monsters: Seq<u64>,
    bullets: Seq<BulletDamage>,
) -> Seq<u64>
    decreases bullets.len(),
{
    if bullets.len() == 0 {
        seq![]
    } else {
        let prev = expected_despawned_bullets(events, monsters, bullets.drop_last());
        let b = bullets.last().entity;
        if bullet_touched(events, b, monsters) {
            prev.push(b)
        } else {
            prev
        }
    }
}

/// Damage over a prefix of the bullets never exceeds the damage of all of them.
proof fn lemma_event_damage_prefix(ev: CollisionEvent, m: u64, bullets: Seq<BulletDamage>, j: int)
    requires
        0 <= j <= bullets.len(),
    ensures
        0 <= event_damage(ev, m, bullets.take(j)) <= event_damage(ev, m, bullets),
    decreases bullets.len(),
{
    if bullets.len() > 0 {
        if j == bullets.len() {
            assert(bullets.take(j) =~= bullets);
            lemma_event_damage_prefix(ev, m, bullets.drop_last(), j - 1);
            assert(bullets.drop_last().take(j - 1) =~= bullets.drop_last());
        } else {
            lemma_event_damage_prefix(ev, m, bullets.drop_last(), j);
            assert(bullets.drop_last().take(j) =~= bullets.take(j));
        }
    }
}

/// Damage over a prefix of the events never exceeds the damage over all of them.
proof fn lemma_total_damage_prefix(
    events: Seq<CollisionEvent>,
    m: u64,
    bullets: Seq<BulletDamage>,
    i: int,
)
    requires
        0 <= i <= events.len(),
    ensures
        0 <= total_damage(events.take(i), m, bullets) <= total_damage(events, m, bullets),
    decreases events.len(),
{
    if events.len() > 0 {
        lemma_event_damage_prefix(events.last(), m, bullets, bullets.len() as int);
        assert(bullets.take(bullets.len() as int) =~= bullets);
        if i == events.len() {
            assert(events.take(i) =~= events);
            lemma_total_damage_prefix(events.drop_last(), m, bullets, i - 1);
        } else {
            lemma_total_damage_prefix(events.drop_last(), m, bullets, i);
            assert(events.drop_last().take(i) =~= events.take(i));
        }
    }
}

/// Whether `monster` is hit during the frame, and the sum of the damages it
/// takes; `None` when that sum does not fit in a `u16`.
fn monster_damage(events: &Vec<CollisionEvent>, monster: u64, bullets: &Vec<BulletDamage>) -> (res:
    Option<(bool, u16)>)
    ensures
        res is None <==> total_damage(events@, monster, bullets@) > u16::MAX,
        res matches Some(r) ==> r.0 == is_hit(events@, monster, bullets@) && r.1 == total_damage(
            events@,
            monster,
            bullets@,
        ),
{
    let mut hit = false;
    let mut total: u16 = 0;
    let mut i: usize = 0;
    while i < events.len()
        invariant
            0 <= i <= events.len(),
            hit == is_hit(events@.take(i as int), monster, bullets@),
            total == total_damage(events@.take(i as int), monster, bullets@),
        decreases events.len() - i,
    {
        let ev = events[i];
        proof {
            assert(events@.take(i + 1).drop_last() =~= events@.take(i as int));
            lemma_total_damage_prefix(events@, monster, bullets@, i + 1);
            lemma_total_damage_prefix(events@.take(i + 1), monster, bullets@, i as int);
            assert(events@.take(i + 1).take(i as int) =~= events@.take(i as int));
        }
        let mut j: usize = 0;
        while j < bullets.len()
            invariant
                0 <= i < events.len(),
                0 <= j <= bullets.len(),
                ev == events@[i as int],
                events@.take(i + 1).drop_last() =~= events@.take(i as int),
                total_damage(events@.take(i + 1), monster, bullets@) <= total_damage(
                    events@,
                    monster,
                    bullets@,
                ),
                hit == (is_hit(events@.take(i as int), monster, bullets@) || event_hits(
                    ev,
                    monster,
                    bullets@.take(j as int),
                )),
                total == total_damage(events@.take(i as int), monster, bullets@) + event_damage(
                    ev,
                    monster,
                    bullets@.take(j as int),
                ),
            decreases bullets.len() - j,
        {
            let b = bullets[j];
            proof {
                assert(bullets@.take(j + 1).drop_last() =~= bullets@.take(j as int));
                lemma_event_damage_prefix(ev, monster, bullets@, j + 1);
                assert(bullets@.take(bullets.len() as int) =~= bullets@);
            }
            let matches = match ev {
                CollisionEvent::Started(e1, e2) => (e1 == monster && e2 == b.entity) || (e1
                    == b.entity && e2 == monster),
                CollisionEvent::Stopped(_, _) => false,
            };
            if matches {
                match total.checked_add(b.damage) {
                    Some(t) => {
                        total = t;
                    },
                    None => {
                        return None;
                    },
                }
                hit = true;
            }
            j = j + 1;
        }
        proof {
            assert(bullets@.take(bullets.len() as int) =~= bullets@);
        }
        i = i + 1;
    }
    proof {
        assert(events@.take(events.len() as int) =~= events@);
    }
    Some((hit, total))
}

/// Whether `bullet` touches one of `monsters` during the frame.
fn bullet_hits_monster(events: &Vec<CollisionEvent>, bullet: u64, monsters: &Vec<u64>) -> (res: bool)
    ensures
        res == bullet_touched(events@, bullet, monsters@),
{
    let mut hit = false;
    let mut i: usize = 0;
    while i < events.len()
        invariant
            0 <= i <= events.len(),
            hit == bullet_touched(events@.take(i as int), bullet, monsters@),
        decreases events.len() - i,
    {
        let ev = events[i];
        proof {
            assert(events@.take(i + 1).drop_last() =~= events@.take(i as int));
        }
        let mut k: usize = 0;
        while k < monsters.len()
            invariant
                0 <= i < events.len(),
                0 <= k <= monsters.len(),
                ev == events@[i as int],
                events@.take(i + 1).drop_last() =~= events@.take(i as int),
                hit == (bullet_touched(events@.take(i as int), bullet, monsters@)
                    || event_touches_monster(ev, bullet, monsters@.take(k as int))),
            decreases monsters.len() - k,
        {
            let m = monsters[k];
            proof {
                assert(monsters@.take(k + 1).drop_last() =~= monsters@.take(k as int));
            }
            let matches = match ev {
                CollisionEvent::Started(e1, e2) => (e1 == m && e2 == bullet) || (e1 == bullet
                    && e2 == m),
                CollisionEvent::Stopped(_, _) => false,
            };
            if matches {
                hit = true;
            }
            k = k + 1;
        }
        proof {
            assert(monsters@.take(monsters.len() as int) =~= monsters@);
        }
        i = i + 1;
    }
    proof {
        assert(events@.take(events.len() as int) =~= events@);
    }
    hit
}

/// Some monster of `monsters` takes damages whose sum does not fit in a `u16`.
pub open spec fn damage_overflows(
    events: Seq<CollisionEvent>,
    monsters: Seq<u64>,
    bullets: Seq<BulletDamage>,
) -> bool {
    exists|k: int|
        0 <= k < monsters.len() && #[trigger] total_damage(events, monsters[k], bullets)
            > u16::MAX
}

/// Monsters hit by bullets: every collision start between a monster and a
/// bullet adds the bullet's damage to the monster, and the bullet is
/// despawned. Each monster hit gets one entry with the sum of its damages.
/// `None` when the sum of the damages of a monster overflows its `u16`.
///
/// `monsters` and `bullets` are the entities of the two queries: each entity
/// occurs once.
pub fn monster_hit_by_bullet(
    events: &Vec<CollisionEvent>,
    monsters: &Vec<u64>,
    bullets: &Vec<BulletDamage>,
) -> (res: Option<BulletHits>)
    ensures
        res is None <==> damage_overflows(events@, monsters@, bullets@),
        res matches Some(r) ==> {
            &&& r.monster_hits@ == expected_monster_hits(events@, monsters@, bullets@)
            &&& r.despawned_bullets@ == expected_despawned_bullets(events@, monsters@, bullets@)
        },
{
    let mut monster_hits: Vec<MonsterHit> = Vec::new();
    let mut k: usize = 0;
    while k < monsters.len()
        invariant
            0 <= k <= monsters.len(),
            forall|k2: int|
                0 <= k2 < k ==> total_damage(events@, #[trigger] monsters@[k2], bullets@)
                    <= u16::MAX,
            monster_hits@ == expected_monster_hits(events@, monsters@.take(k as int), bullets@),
        decreases monsters.len() - k,
    {
        let m = monsters[k];
        proof {
            assert(monsters@.take(k + 1).drop_last() =~= monsters@.take(k as int));
        }
        match monster_damage(events, m, bullets) {
            None => {
                proof {
                    assert(total_damage(events@, monsters@[k as int], bullets@) > u16::MAX);
                }
                return None;
            },
            Some((hit, damage)) => {
                if hit {
                    monster_hits.push(MonsterHit { entity: m, damage });
                }
            },
        }
        k = k + 1;
    }
    proof {
        assert(monsters@.take(monsters.len() as int) =~= monsters@);
    }
    let mut despawned_bullets: Vec<u64> = Vec::new();
    let mut j: usize = 0;
    while j < bullets.len()
        invariant
            0 <= j <= bullets.len(),
            despawned_bullets@ == expected_despawned_bullets(
                events@,
                monsters@,
                bullets@.take(j as int),
            ),
        decreases bullets.len() - j,
    {
        let b = bullets[j].entity;
        proof {
            assert(bullets@.take(j + 1).drop_last() =~= bullets@.take(j as int));
        }
        if bullet_hits_monster(events, b, monsters) {
            despawned_bullets.push(b);
        }
        j = j + 1;
    }
    proof {
        assert(bullets@.take(bullets.len() as int) =~= bullets@);
    }
    Some(BulletHits { monster_hits, despawned_bullets })
}

/// A despawned bullet is one of the bullets, and it touched a monster.
proof fn lemma_despawned_is_touching_bullet(
    events: Seq<CollisionEvent>,
    monsters: Seq<u64>,
    bullets: Seq<BulletDamage>,
    n: int,
)
    requires
        0 <= n < expected_despawned_bullets(events, monsters, bullets).len(),
    ensures
        bullet_touched(events, expected_despawned_bullets(events, monsters, bullets)[n], monsters),
        exists|j: int|
            0 <= j < bullets.len() && #[trigger] bullets[j].entity == expected_despawned_bullets(
                events,
                monsters,
                bullets,
            )[n],
    decreases bullets.len(),
{
    let d = expected_despawned_bullets(events, monsters, bullets);
    let prev = expected_despawned_bullets(events, monsters, bullets.drop_last());
    let b = bullets.last().entity;
    if bullet_touched(events, b, monsters) && n == prev.len() {
        assert(d[n] == b);
        assert(bullets[bullets.len() - 1].entity == d[n]);
    } else {
        assert(d[n] == prev[n]);
        lemma_despawned_is_touching_bullet(events, monsters, bullets.drop_last(), n);
        let j = choose|j: int|
            0 <= j < bullets.drop_last().len() && #[trigger] bullets.drop_last()[j].entity
                == prev[n];
        assert(bullets[j].entity == d[n]);
    }
}

/// A collision start in `ev` between `b` and one of `monsters` is with one of them.
proof fn lemma_event_touches_monster_witness(ev: CollisionEvent, b: u64, monsters: Seq<u64>)
    requires
        event_touches_monster(ev, b, monsters),
    ensures
        exists|k: int| 0 <= k < monsters.len() && #[trigger] touches(ev, monsters[k], b),
    decreases monsters.len(),
{
    if touches(ev, monsters.last(), b) {
        assert(touches(ev, monsters[monsters.len() - 1], b));
    } else {
        lemma_event_touches_monster_witness(ev, b, monsters.drop_last());
        let k = choose|k: int|
            0 <= k < monsters.drop_last().len() && #[trigger] touches(
                ev,
                monsters.drop_last()[k],
                b,
            );
        assert(touches(ev, monsters[k], b));
    }
}

/// A bullet that touched a monster did so in one event, with one monster.
proof fn lemma_bullet_touched_witness(events: Seq<CollisionEvent>, b: u64, monsters: Seq<u64>)
    requires
        bullet_touched(events, b, monsters),
    ensures
        exists|i: int, k: int|
            0 <= i < events.len() && 0 <= k < monsters.len() && #[trigger] touches(
                events[i],
                monsters[k],
                b,
            ),
    decreases events.len(),
{
    if event_touches_monster(events.last(), b, monsters) {
        lemma_event_touches_monster_witness(events.last(), b, monsters);
        let k = choose|k: int| 0 <= k < monsters.len() && #[trigger] touches(events.last(), monsters[k], b);
        assert(touches(events[events.len() - 1], monsters[k], b));
    } else {
        lemma_bullet_touched_witness(events.drop_last(), b, monsters);
        let (i, k) = choose|i: int, k: int|
            0 <= i < events.drop_last().len() && 0 <= k < monsters.len() && #[trigger] touches(
                events.drop_last()[i],
                monsters[k],
                b,
            );
        assert(touches(events[i], monsters[k], b));
    }
}

/// A collision start between `m` and one of the bullets is a hit of `m` in that event.
proof fn lemma_touch_is_event_hit(ev: CollisionEvent, m: u64, bullets: Seq<BulletDamage>, j: int)
    requires
        0 <= j < bullets.len(),
        touches(ev, m, bullets[j].entity),
    ensures
        event_hits(ev, m, bullets),
    decreases bullets.len(),
{
    if j < bullets.len() - 1 {
        lemma_touch_is_event_hit(ev, m, bullets.drop_last(), j);
    }
}

/// A hit of `m` in one of the events makes `m` hit.
proof fn lemma_event_hit_is_hit(
    events: Seq<CollisionEvent>,
    m: u64,
    bullets: Seq<BulletDamage>,
    i: int,
)
    requires
        0 <= i < events.len(),
        event_hits(events[i], m, bullets),
    ensures
        is_hit(events, m, bullets),
    decreases events.len(),
{
    if i < events.len() - 1 {
        lemma_event_hit_is_hit(events.drop_last(), m, bullets, i);
    }
}

/// A monster of `monsters` that is hit gets an entry among the hits.
proof fn lemma_hit_monster_is_reported(
    events: Seq<CollisionEvent>,
    monsters: Seq<u64>,
    bullets: Seq<BulletDamage>,
    k: int,
)
    requires
        0 <= k < monsters.len(),
        is_hit(events, monsters[k], bullets),
    ensures
        exists|h: int|
            0 <= h < expected_monster_hits(events, monsters, bullets).len()
                && #[trigger] expected_monster_hits(events, monsters, bullets)[h].entity
                == monsters[k],
    decreases monsters.len(),
{
    let hits = expected_monster_hits(events, monsters, bullets);
    let prev = expected_monster_hits(events, monsters.drop_last(), bullets);
    if k == monsters.len() - 1 {
        assert(hits[prev.len() as int].entity == monsters[k]);
    } else {
        lemma_hit_monster_is_reported(events, monsters.drop_last(), bullets, k);
        let h = choose|h: int|
            0 <= h < prev.len() && #[trigger] prev[h].entity == monsters.drop_last()[k];
        assert(hits[h].entity == monsters[k]);
    }
}

/// A monster with an entry among the hits is one of `monsters`, and it is hit.
proof fn lemma_reported_monster_is_hit(
    events: Seq<CollisionEvent>,
    monsters: Seq<u64>,
    bullets: Seq<BulletDamage>,
    h: int,
)
    requires
        0 <= h < expected_monster_hits(events, monsters, bullets).len(),
    ensures
        is_hit(events, expected_monster_hits(events, monsters, bullets)[h].entity, bullets),
        exists|k: int|
            0 <= k < monsters.len() && #[trigger] monsters[k] == expected_monster_hits(
                events,
                monsters,
                bullets,
            )[h].entity,
    decreases monsters.len(),
{
    let hits = expected_monster_hits(events, monsters, bullets);
    let prev = expected_monster_hits(events, monsters.drop_last(), bullets);
    let m = monsters.last();
    if is_hit(events, m, bullets) && h == prev.len() {
        assert(hits[h].entity == m);
        assert(monsters[monsters.len() - 1] == m);
    } else {
        assert(hits[h] == prev[h]);
        lemma_reported_monster_is_hit(events, monsters.drop_last(), bullets, h);
        let k = choose|k: int|
            0 <= k < monsters.drop_last().len() && #[trigger] monsters.drop_last()[k]
                == prev[h].entity;
        assert(monsters[k] == hits[h].entity);
    }
}

/// A hit of `m` in `ev` comes from one of the bullets.
proof fn lemma_event_hits_witness(ev: CollisionEvent, m: u64, bullets: Seq<BulletDamage>)
    requires
        event_hits(ev, m, bullets),
    ensures
        exists|j: int| 0 <= j < bullets.len() && #[trigger] touches(ev, m, bullets[j].entity),
    decreases bullets.len(),
{
    if touches(ev, m, bullets.last().entity) {
        assert(touches(ev, m, bullets[bullets.len() - 1].entity));
    } else {
        lemma_event_hits_witness(ev, m, bullets.drop_last());
        let j = choose|j: int|
            0 <= j < bullets.drop_last().len() && #[trigger] touches(
                ev,
                m,
                bullets.drop_last()[j].entity,
            );
        assert(touches(ev, m, bullets[j].entity));
    }
}

/// A monster that is hit collided, in one event, with one of the bullets.
proof fn lemma_is_hit_witness(events: Seq<CollisionEvent>, m: u64, bullets: Seq<BulletDamage>)
    requires
        is_hit(events, m, bullets),
    ensures
        exists|i: int, j: int|
            0 <= i < events.len() && 0 <= j < bullets.len() && #[trigger] touches(
                events[i],
                m,
                bullets[j].entity,
            ),
    decreases events.len(),
{
    if event_hits(events.last(), m, bullets) {
        lemma_event_hits_witness(events.last(), m, bullets);
        let j = choose|j: int| 0 <= j < bullets.len() && #[trigger] touches(events.last(), m, bullets[j].entity);
        assert(touches(events[events.len() - 1], m, bullets[j].entity));
    } else {
        lemma_is_hit_witness(events.drop_last(), m, bullets);
        let (i, j) = choose|i: int, j: int|
            0 <= i < events.drop_last().len() && 0 <= j < bullets.len() && #[trigger] touches(
                events.drop_last()[i],
                m,
                bullets[j].entity,
            );
        assert(touches(events[i], m, bullets[j].entity));
    }
}

/// A collision start between `b` and one of `monsters` in `ev` is seen by `event_touches_monster`.
proof fn lemma_touch_is_event_touch(ev: CollisionEvent, b: u64, monsters: Seq<u64>, k: int)
    requires
        0 <= k < monsters.len(),
        touches(ev, monsters[k], b),
    ensures
        event_touches_monster(ev, b, monsters),
    decreases monsters.len(),
{
    if k < monsters.len() - 1 {
        lemma_touch_is_event_touch(ev, b, monsters.drop_last(), k);
    }
}

/// A collision start between `b` and one of `monsters` in one of the events
/// makes `b` a bullet that touched a monster.
proof fn lemma_touch_is_bullet_touched(
    events: Seq<CollisionEvent>,
    monsters: Seq<u64>,
    b: u64,
    i: int,
    k: int,
)
    requires
        0 <= i < events.len(),
        0 <= k < monsters.len(),
        touches(events[i], monsters[k], b),
    ensures
        bullet_touched(events, b, monsters),
    decreases events.len(),
{
    if i < events.len() - 1 {
        lemma_touch_is_bullet_touched(events.drop_last(), monsters, b, i, k);
    } else {
        lemma_touch_is_event_touch(events[i], b, monsters, k);
    }
}

/// A bullet that touched a monster is despawned.
proof fn lemma_touching_bullet_is_despawned(
    events: Seq<CollisionEvent>,
    monsters: Seq<u64>,
    bullets: Seq<BulletDamage>,
    j: int,
)
    requires
        0 <= j < bullets.len(),
        bullet_touched(events, bullets[j].entity, monsters),
    ensures
        exists|n: int|
            0 <= n < expected_despawned_bullets(events, monsters, bullets).len()
                && #[trigger] expected_despawned_bullets(events, monsters, bullets)[n]
                == bullets[j].entity,
    decreases bullets.len(),
{
    let d = expected_despawned_bullets(events, monsters, bullets);
    let prev = expected_despawned_bullets(events, monsters, bullets.drop_last());
    if j == bullets.len() - 1 {
        assert(d[prev.len() as int] == bullets[j].entity);
    } else {
        lemma_touching_bullet_is_despawned(events, monsters, bullets.drop_last(), j);
        let n = choose|n: int| 0 <= n < prev.len() && #[trigger] prev[n] == bullets.drop_last()[j].entity;
        assert(d[n] == bullets[j].entity);
    }
}

/// Bullet `b` collided, in some event of the frame, with a monster that is
/// reported hit.
pub open spec fn touched_reported_monster(
    events: Seq<CollisionEvent>,
    monsters: Seq<u64>,
    bullets: Seq<BulletDamage>,
    b: u64,
) -> bool {
    let hits = expected_monster_hits(events, monsters, bullets);
    exists|i: int, h: int|
        0 <= i < events.len() && 0 <= h < hits.len() && #[trigger] touches(
            events[i],
            hits[h].entity,
            b,
        )
}

/// Monster `m` collided, in some event of the frame, with a despawned bullet.
pub open spec fn touched_despawned_bullet(
    events: Seq<CollisionEvent>,
    monsters: Seq<u64>,
    bullets: Seq<BulletDamage>,
    m: u64,
) -> bool {
    let d = expected_despawned_bullets(events, monsters, bullets);
    exists|i: int, n: int|
        0 <= i < events.len() && 0 <= n < d.len() && #[trigger] touches(events[i], m, d[n])
}

/// The hits of a frame and its despawned bullets agree: every despawned
/// bullet collided, in some event of the frame, with a monster that is
/// reported hit, and every monster reported hit collided with a despawned
/// bullet. A bullet never disappears without hurting a monster, and a
/// monster is never hurt by a bullet that stays.
pub proof fn lemma_hits_and_despawned_bullets_agree(
    events: Seq<CollisionEvent>,
    monsters: Seq<u64>,
    bullets: Seq<BulletDamage>,
)
    ensures
        forall|n: int|
            0 <= n < expected_despawned_bullets(events, monsters, bullets).len()
                ==> #[trigger] touched_reported_monster(
                events,
                monsters,
                bullets,
                expected_despawned_bullets(events, monsters, bullets)[n],
            ),
        forall|h: int|
            0 <= h < expected_monster_hits(events, monsters, bullets).len()
                ==> #[trigger] touched_despawned_bullet(
                events,
                monsters,
                bullets,
                expected_monster_hits(events, monsters, bullets)[h].entity,
            ),
{
    let hits = expected_monster_hits(events, monsters, bullets);
    let d = expected_despawned_bullets(events, monsters, bullets);
    assert forall|n: int| 0 <= n < d.len() implies #[trigger] touched_reported_monster(
        events,
        monsters,
        bullets,
        d[n],
    ) by {
        lemma_despawned_is_touching_bullet(events, monsters, bullets, n);
        let j = choose|j: int| 0 <= j < bullets.len() && #[trigger] bullets[j].entity == d[n];
        lemma_bullet_touched_witness(events, d[n], monsters);
        let (i, k) = choose|i: int, k: int|
            0 <= i < events.len() && 0 <= k < monsters.len() && #[trigger] touches(
                events[i],
                monsters[k],
                d[n],
            );
        lemma_touch_is_event_hit(events[i], monsters[k], bullets, j);
        lemma_event_hit_is_hit(events, monsters[k], bullets, i);
        lemma_hit_monster_is_reported(events, monsters, bullets, k);
        let h = choose|h: int| 0 <= h < hits.len() && #[trigger] hits[h].entity == monsters[k];
        assert(touches(events[i], hits[h].entity, d[n]));
    }
    assert forall|h: int| 0 <= h < hits.len() implies #[trigger] touched_despawned_bullet(
        events,
        monsters,
        bullets,
        hits[h].entity,
    ) by {
        let m = hits[h].entity;
        lemma_reported_monster_is_hit(events, monsters, bullets, h);
        let k = choose|k: int| 0 <= k < monsters.len() && #[trigger] monsters[k] == m;
        lemma_is_hit_witness(events, m, bullets);
        let (i, j) = choose|i: int, j: int|
            0 <= i < events.len() && 0 <= j < bullets.len() && #[trigger] touches(
                events[i],
                m,
                bullets[j].entity,
            );
        lemma_touch_is_bullet_touched(events, monsters, bullets[j].entity, i, k);
        lemma_touching_bullet_is_despawned(events, monsters, bullets, j);
        let n = choose|n: int| 0 <= n < d.len() && #[trigger] d[n] == bullets[j].entity;
        assert(touches(events[i], m, d[n]));
    }
}

/// Number of monsters of `monsters` whose collision with `player` starts in `ev`.
pub open spec fn event_monster_touches(ev: CollisionEvent, player: u64, monsters: Seq<u64>) -> nat
    decreases monsters.len(),
{
    if monsters.len() == 0 {
        0
    } else {
        event_monster_touches(ev, player, monsters.drop_last()) + if touches(
            ev,
            player,
            monsters.last(),
        ) {
            1nat
        } else {
            0nat
        }
    }
}

/// Number of collision starts between `player` and a monster over all `events`.
pub open spec fn monster_touches(events: Seq<CollisionEvent>, player: u64, monsters: Seq<u64>) -> nat
    decreases events.len(),
{
    if events.len() == 0 {
        0
    } else {
        monster_touches(events.drop_last(), player, monsters) + event_monster_touches(
            events.last(),
            player,
            monsters,
        )
    }
}

/// Player touched by monsters: one hit of the player per collision start
/// between the player and a monster. The result holds the target of each
/// hit event, that is the player; nothing is hit when there is no player.
pub fn player_touched_by_monster(
    events: &Vec<CollisionEvent>,
    monsters: &Vec<u64>,
    player: Option<u64>,
) -> (hits: Vec<u64>)
    ensures
        player is None ==> hits@.len() == 0,
        player matches Some(p) ==> hits@.len() == monster_touches(events@, p, monsters@) && forall|
            i: int,
        |
            0 <= i < hits@.len() ==> hits@[i] == p,
{
    let mut hits: Vec<u64> = Vec::new();
    let p = match player {
        Some(p) => p,
        None => {
            return hits;
        },
    };
    let mut i: usize = 0;
    while i < events.len()
        invariant
            0 <= i <= events.len(),
            player == Some(p),
            hits@.len() == monster_touches(events@.take(i as int), p, monsters@),
            forall|i2: int| 0 <= i2 < hits@.len() ==> hits@[i2] == p,
        decreases events.len() - i,
    {
        let ev = events[i];
        proof {
            assert(events@.take(i + 1).drop_last() =~= events@.take(i as int));
        }
        let mut k: usize = 0;
        while k < monsters.len()
            invariant
                0 <= i < events.len(),
                0 <= k <= monsters.len(),
                ev == events@[i as int],
                events@.take(i + 1).drop_last() =~= events@.take(i as int),
                hits@.len() == monster_touches(events@.take(i as int), p, monsters@)
                    + event_monster_touches(ev, p, monsters@.take(k as int)),
                forall|i2: int| 0 <= i2 < hits@.len() ==> hits@[i2] == p,
            decreases monsters.len() - k,
        {
            let m = monsters[k];
            proof {
                assert(monsters@.take(k + 1).drop_last() =~= monsters@.take(k as int));
            }
            let matches = match ev {
                CollisionEvent::Started(e1, e2) => (e1 == p && e2 == m) || (e1 == m && e2 == p),
                CollisionEvent::Stopped(_, _) => false,
            };
            if matches {
                hits.push(p);
            }
            k = k + 1;
        }
        proof {
            assert(monsters@.take(monsters.len() as int) =~= monsters@);
        }
        i = i + 1;
    }
    proof {
        assert(events@.take(events.len() as int) =~= events@);
    }
    hits
}

/// The bonuses of `bonuses` whose collision with `player` starts in `ev`, in order.
pub open spec fn event_pickups(ev: CollisionEvent, player: u64, bonuses: Seq<u64>) -> Seq<u64>
    decreases bonuses.len(),
{
    if bonuses.len() == 0 {
        seq![]
    } else {
        let prev = event_pickups(ev, player, bonuses.drop_last());
        if touches(ev, bonuses.last(), player) {
            prev.push(bonuses.last())
        } else {
            prev
        }
    }
}

/// The bonus picked at each collision start between `player` and a bonus,
/// event after event.
pub open spec fn bonus_pickups(events: Seq<CollisionEvent>, player: u64, bonuses: Seq<u64>) -> Seq<
    u64,
>
    decreases events.len(),
{
    if events.len() == 0 {
        seq![]
    } else {
        bonus_pickups(events.drop_last(), player, bonuses) + event_pickups(
            events.last(),
            player,
            bonuses,
        )
    }
}

/// What the player gets from the bonuses it touches during one frame.
pub struct BonusPickups {
    /// The player's money afterwards.
    pub money: u16,
    /// The bonus despawned at each pickup, in order.
    pub despawned: Vec<u64>,
}

proof fn lemma_event_pickups_prefix(ev: CollisionEvent, player: u64, bonuses: Seq<u64>, k: int)
    requires
        0 <= k <= bonuses.len(),
    ensures
        event_pickups(ev, player, bonuses.take(k)).len() <= event_pickups(ev, player, bonuses).len(),
    decreases bonuses.len(),
{
    if bonuses.len() > 0 {
        if k == bonuses.len() {
            assert(bonuses.take(k) =~= bonuses);
        } else {
            lemma_event_pickups_prefix(ev, player, bonuses.drop_last(), k);
            assert(bonuses.drop_last().take(k) =~= bonuses.take(k));
        }
    }
}

proof fn lemma_bonus_pickups_prefix(events: Seq<CollisionEvent>, player: u64, bonuses: Seq<u64>, i: int)
    requires
        0 <= i <= events.len(),
    ensures
        bonus_pickups(events.take(i), player, bonuses).len() <= bonus_pickups(events, player, bonuses).len(),
    decreases events.len(),
{
    if events.len() > 0 {
        if i == events.len() {
            assert(events.take(i) =~= events);
        } else {
            lemma_bonus_pickups_prefix(events.drop_last(), player, bonuses, i);
            assert(events.drop_last().take(i) =~= events.take(i));
        }
    }
}

/// Player takes bonuses: at each collision start between the player and a
/// bonus, the player earns one unit of money and the bonus is despawned.
/// Without a player nothing happens. `None` when the money would overflow
/// its `u16`.
pub fn player_hits_bonus(
    events: &Vec<CollisionEvent>,
    bonuses: &Vec<u64>,
    player: Option<u64>,
    money: u16,
) -> (res: Option<BonusPickups>)
    ensures
        res is None <==> (player matches Some(p) && money + bonus_pickups(events@, p, bonuses@).len()
            > u16::MAX),
        res matches Some(r) ==> {
            &&& player is None ==> r.money == money && r.despawned@.len() == 0
            &&& player matches Some(p) ==> {
                &&& r.despawned@ == bonus_pickups(events@, p, bonuses@)
                &&& r.money == money + r.despawned@.len()
            }
        },
{
    let mut despawned: Vec<u64> = Vec::new();
    let p = match player {
        Some(p) => p,
        None => {
            return Some(BonusPickups { money, despawned });
        },
    };
    let mut earned = money;
    let mut i: usize = 0;
    while i < events.len()
        invariant
            0 <= i <= events.len(),
            player == Some(p),
            despawned@ == bonus_pickups(events@.take(i as int), p, bonuses@),
            earned == money + despawned@.len(),
        decreases events.len() - i,
    {
        let ev = events[i];
        proof {
            assert(events@.take(i + 1).drop_last() =~= events@.take(i as int));
            lemma_bonus_pickups_prefix(events@, p, bonuses@, i + 1);
        }
        let mut k: usize = 0;
        while k < bonuses.len()
            invariant
                0 <= i < events.len(),
                0 <= k <= bonuses.len(),
                player == Some(p),
                ev == events@[i as int],
                events@.take(i + 1).drop_last() =~= events@.take(i as int),
                bonus_pickups(events@.take(i + 1), p, bonuses@).len() <= bonus_pickups(
                    events@,
                    p,
                    bonuses@,
                ).len(),
                despawned@ == bonus_pickups(events@.take(i as int), p, bonuses@) + event_pickups(
                    ev,
                    p,
                    bonuses@.take(k as int),
                ),
                earned == money + despawned@.len(),
            decreases bonuses.len() - k,
        {
            let b = bonuses[k];
            proof {
                assert(bonuses@.take(k + 1).drop_last() =~= bonuses@.take(k as int));
                lemma_event_pickups_prefix(ev, p, bonuses@, k + 1);
                assert(bonuses@.take(bonuses.len() as int) =~= bonuses@);
            }
            let matches = match ev {
                CollisionEvent::Started(e1, e2) => (e1 == b && e2 == p) || (e1 == p && e2 == b),
                CollisionEvent::Stopped(_, _) => false,
            };
            if matches {
                match earned.checked_add(1) {
                    Some(m) => {
                        earned = m;
                    },
                    None => {
                        proof {
                            assert(touches(ev, b, p));
                            assert(bonuses@.take(k + 1).last() == b);
                            assert(event_pickups(ev, p, bonuses@.take(k + 1)) == event_pickups(
                                ev,
                                p,
                                bonuses@.take(k as int),
                            ).push(b));
                            assert(events@.take(i + 1).last() == ev);
                            assert(bonus_pickups(events@.take(i + 1), p, bonuses@).len()
                                == bonus_pickups(events@.take(i as int), p, bonuses@).len()
                                + event_pickups(ev, p, bonuses@).len());
                            assert(event_pickups(ev, p, bonuses@.take(k + 1)).len() <= event_pickups(
                                ev,
                                p,
                                bonuses@,
                            ).len());
                            assert(despawned@.len() + 1 <= bonus_pickups(events@, p, bonuses@).len());
                            assert(earned == u16::MAX);
                            assert(money + bonus_pickups(events@, p, bonuses@).len()
                                > u16::MAX);
                        }
                        return None;
                    },
                }
                despawned.push(b);
            }
            k = k + 1;
        }
        proof {
            assert(bonuses@.take(bonuses.len() as int) =~= bonuses@);
        }
        i = i + 1;
    }
    proof {
        assert(events@.take(events.len() as int) =~= events@);
    }
    Some(BonusPickups { money: earned, despawned })
}

/// Whether `x` is one of the entities of `list`.
fn contains_entity(list: &Vec<u64>, x: u64) -> (found: bool)
    ensures
        found == list@.contains(x),
{
    let mut i: usize = 0;
    while i < list.len()
        invariant
            0 <= i <= list.len(),
            forall|j: int| 0 <= j < i ==> list@[j] != x,
        decreases list.len() - i,
    {
        if list[i] == x {
            return true;
        }
        i = i + 1;
    }
    false
}

/// The entity of `group` in the collision start `ev`, and the other entity:
/// the first entity is tried first.
pub open spec fn either_of(ev: CollisionEvent, group: Seq<u64>) -> Option<(u64, u64)> {
    match ev {
        CollisionEvent::Started(e1, e2) => if group.contains(e1) {
            Some((e1, e2))
        } else if group.contains(e2) {
            Some((e2, e1))
        } else {
            None
        },
        CollisionEvent::Stopped(_, _) => None,
    }
}

/// The character hit in `ev`, with the damager that hits it.
pub open spec fn event_character_hit(
    ev: CollisionEvent,
    characters: Seq<u64>,
    damagers: Seq<u64>,
) -> Seq<(u64, u64)> {
    match either_of(ev, characters) {
        Some((character, other)) => if damagers.contains(other) {
            seq![(character, other)]
        } else {
            seq![]
        },
        None => seq![],
    }
}

/// The characters hit over all `events`, each with its damager, in order.
pub open spec fn character_hits(
    events: Seq<CollisionEvent>,
    characters: Seq<u64>,
    damagers: Seq<u64>,
) -> Seq<(u64, u64)>
    decreases events.len(),
{
    if events.len() == 0 {
        seq![]
    } else {
        character_hits(events.drop_last(), characters, damagers) + event_character_hit(
            events.last(),
            characters,
            damagers,
        )
    }
}

/// Character hit by a damager: at each collision start between a character
/// and a damager, the character takes a hit from the damager. Returns the
/// (character, damager) pairs in the order of the events; the damage of
/// each hit is drawn from the damager's range by the caller.
pub fn check_if_character_is_hit(
    events: &Vec<CollisionEvent>,
    characters: &Vec<u64>,
    damagers: &Vec<u64>,
) -> (hits: Vec<(u64, u64)>)
    ensures
        hits@ == character_hits(events@, characters@, damagers@),
{
    let mut hits: Vec<(u64, u64)> = Vec::new();
    let mut i: usize = 0;
    while i < events.len()
        invariant
            0 <= i <= events.len(),
            hits@ == character_hits(events@.take(i as int), characters@, damagers@),
        decreases events.len() - i,
    {
        proof {
            assert(events@.take(i + 1).drop_last() =~= events@.take(i as int));
        }
        let ev = events[i];
        let ghost before = hits@;
        if let CollisionEvent::Started(e1, e2) = ev {
            let pair = if contains_entity(characters, e1) {
                Some((e1, e2))
            } else if contains_entity(characters, e2) {
                Some((e2, e1))
            } else {
                None
            };
            if let Some((character, other)) = pair {
                if contains_entity(damagers, other) {
                    hits.push((character, other));
                }
            }
        }
        proof {
            assert(hits@ =~= before + event_character_hit(ev, characters@, damagers@));
        }
        i = i + 1;
    }
    proof {
        assert(events@.take(events.len() as int) =~= events@);
    }
    hits
}

/// A change of the damage over time that a character takes.
#[derive(Clone, Copy, Debug, PartialEq, Eq, Structural)]
pub enum DotChange {
    /// The character enters the zone of the damager: it takes its damage over time.
    Insert { character: u64, damager: u64 },
    /// The character leaves a zone: it no longer takes damage over time.
    Remove { character: u64 },
}

/// `e1` is a character and `e2` a damager with damage over time.
pub open spec fn is_dot_pair(e1: u64, e2: u64, characters: Seq<u64>, damagers: Seq<u64>) -> bool {
    characters.contains(e1) && damagers.contains(e2)
}

/// The change of damage over time that `ev` brings, if any.
pub open spec fn event_dot_change(
    ev: CollisionEvent,
    characters: Seq<u64>,
    damagers: Seq<u64>,
) -> Seq<DotChange> {
    match ev {
        CollisionEvent::Started(e1, e2) => if is_dot_pair(e1, e2, characters, damagers) {
            seq![DotChange::Insert { character: e1, damager: e2 }]
        } else if is_dot_pair(e2, e1, characters, damagers) {
            seq![DotChange::Insert { character: e2, damager: e1 }]
        } else {
            seq![]
        },
        CollisionEvent::Stopped(e1, e2) => if is_dot_pair(e1, e2, characters, damagers) {
            seq![DotChange::Remove { character: e1 }]
        } else if is_dot_pair(e2, e1, characters, damagers) {
            seq![DotChange::Remove { character: e2 }]
        } else {
            seq![]
        },
    }
}

/// The changes of damage over time over all `events`, in order.
pub open spec fn dot_changes(
    events: Seq<CollisionEvent>,
    characters: Seq<u64>,
    damagers: Seq<u64>,
) -> Seq<DotChange>
    decreases events.len(),
{
    if events.len() == 0 {
        seq![]
    } else {
        dot_changes(events.drop_last(), characters, damagers) + event_dot_change(
            events.last(),
            characters,
            damagers,
        )
    }
}

/// Entering or leaving a damage-over-time zone does not depend on the order
/// in which the physics engine lists the two entities: when `c` is a
/// character and `d` a damager (and not the other way round), a collision
/// start between them, listed either way, gives `c` the damage over time of
/// `d`, and a collision stop, listed either way, takes it away.
pub proof fn lemma_dot_zone_either_order(c: u64, d: u64, characters: Seq<u64>, damagers: Seq<u64>)
    requires
        characters.contains(c),
        damagers.contains(d),
        !(characters.contains(d) && damagers.contains(c)),
    ensures
        dot_changes(seq![CollisionEvent::Started(c, d)], characters, damagers) == seq![
            DotChange::Insert { character: c, damager: d },
        ],
        dot_changes(seq![CollisionEvent::Started(d, c)], characters, damagers) == seq![
            DotChange::Insert { character: c, damager: d },
        ],
        dot_changes(seq![CollisionEvent::Stopped(c, d)], characters, damagers) == seq![
            DotChange::Remove { character: c },
        ],
        dot_changes(seq![CollisionEvent::Stopped(d, c)], characters, damagers) == seq![
            DotChange::Remove { character: c },
        ],
{
    let s1 = seq![CollisionEvent::Started(c, d)];
    let s2 = seq![CollisionEvent::Started(d, c)];
    let s3 = seq![CollisionEvent::Stopped(c, d)];
    let s4 = seq![CollisionEvent::Stopped(d, c)];
    assert(s1.drop_last() =~= Seq::<CollisionEvent>::empty());
    assert(s2.drop_last() =~= Seq::<CollisionEvent>::empty());
    assert(s3.drop_last() =~= Seq::<CollisionEvent>::empty());
    assert(s4.drop_last() =~= Seq::<CollisionEvent>::empty());
    assert(s1.last() == CollisionEvent::Started(c, d));
    assert(dot_changes(s1.drop_last(), characters, damagers) =~= Seq::<DotChange>::empty());
    assert(dot_changes(s1, characters, damagers) =~= seq![DotChange::Insert { character: c, damager: d }]);
    assert(dot_changes(s2, characters, damagers) =~= seq![DotChange::Insert { character: c, damager: d }]);
    assert(dot_changes(s3, characters, damagers) =~= seq![DotChange::Remove { character: c }]);
    assert(dot_changes(s4, characters, damagers) =~= seq![DotChange::Remove { character: c }]);
}

/// A character hit by a damager is hit whichever of the two entities the
/// collision start lists first (when the damager is not a character), and a
/// collision stop hits nobody.
pub proof fn lemma_hit_either_order(c: u64, d: u64, characters: Seq<u64>, damagers: Seq<u64>)
    requires
        characters.contains(c),
        damagers.contains(d),
        !characters.contains(d),
    ensures
        character_hits(seq![CollisionEvent::Started(c, d)], characters, damagers) == seq![(c, d)],
        character_hits(seq![CollisionEvent::Started(d, c)], characters, damagers) == seq![(c, d)],
        character_hits(seq![CollisionEvent::Stopped(c, d)], characters, damagers).len() == 0,
{
    let s1 = seq![CollisionEvent::Started(c, d)];
    let s2 = seq![CollisionEvent::Started(d, c)];
    let s3 = seq![CollisionEvent::Stopped(c, d)];
    assert(s1.drop_last() =~= Seq::<CollisionEvent>::empty());
    assert(s2.drop_last() =~= Seq::<CollisionEvent>::empty());
    assert(s3.drop_last() =~= Seq::<CollisionEvent>::empty());
    assert(s1.last() == CollisionEvent::Started(c, d));
    assert(character_hits(s1.drop_last(), characters, damagers) =~= Seq::<(u64, u64)>::empty());
    assert(character_hits(s1, characters, damagers) =~= seq![(c, d)]);
    assert(character_hits(s2, characters, damagers) =~= seq![(c, d)]);
    assert(character_hits(s3, characters, damagers) =~= Seq::<(u64, u64)>::empty());
}

/// Whether a character enters or leaves the zone of a damager with damage
/// over time: a collision start gives the character the damager's damage
/// over time, a collision stop takes it away. Returns the changes in the
/// order of the events.
pub fn check_if_character_is_in_damage_over_time_zone(
    events: &Vec<CollisionEvent>,
    characters: &Vec<u64>,
    damagers: &Vec<u64>,
) -> (changes: Vec<DotChange>)
    ensures
        changes@ == dot_changes(events@, characters@, damagers@),
{
    let mut changes: Vec<DotChange> = Vec::new();
    let mut i: usize = 0;
    while i < events.len()
        invariant
            0 <= i <= events.len(),
            changes@ == dot_changes(events@.take(i as int), characters@, damagers@),
        decreases events.len() - i,
    {
        proof {
            assert(events@.take(i + 1).drop_last() =~= events@.take(i as int));
        }
        let ev = events[i];
        let ghost before = changes@;
        let (e1, e2, started) = match ev {
            CollisionEvent::Started(e1, e2) => (e1, e2, true),
            CollisionEvent::Stopped(e1, e2) => (e1, e2, false),
        };
        let pair = if contains_entity(characters, e1) && contains_entity(damagers, e2) {
            Some((e1, e2))
        } else if contains_entity(characters, e2) && contains_entity(damagers, e1) {
            Some((e2, e1))
        } else {
            None
        };
        if let Some((character, damager)) = pair {
            if started {
                changes.push(DotChange::Insert { character, damager });
            } else {
                changes.push(DotChange::Remove { character });
            }
        }
        proof {
            assert(changes@ =~= before + event_dot_change(ev, characters@, damagers@));
        }
        i = i + 1;
    }
    proof {
        assert(events@.take(events.len() as int) =~= events@);
    }
    changes
}

/// The two characters that start colliding in `ev`, if both are characters
/// and they are two different entities.
pub open spec fn event_character_pair(ev: CollisionEvent, characters: Seq<u64>) -> Seq<(u64, u64)> {
    match ev {
        CollisionEvent::Started(e1, e2) => if e1 != e2 && characters.contains(e1)
            && characters.contains(e2) {
            seq![(e1, e2)]
        } else {
            seq![]
        },
        CollisionEvent::Stopped(_, _) => seq![],
    }
}

/// The pairs of characters that start colliding over all `events`, in order.
pub open spec fn character_pairs(events: Seq<CollisionEvent>, characters: Seq<u64>) -> Seq<
    (u64, u64),
>
    decreases events.len(),
{
    if events.len() == 0 {
        seq![]
    } else {
        character_pairs(events.drop_last(), characters) + event_character_pair(
            events.last(),
            characters,
        )
    }
}

/// Stop moving on collision between characters: when two characters start
/// colliding, both stop. Returns the pairs of characters to stop, in the
/// order of the events.
pub fn stop_move_on_collision_between_characters(
    events: &Vec<CollisionEvent>,
    characters: &Vec<u64>,
) -> (pairs: Vec<(u64, u64)>)
    ensures
        pairs@ == character_pairs(events@, characters@),
{
    let mut pairs: Vec<(u64, u64)> = Vec::new();
    let mut i: usize = 0;
    while i < events.len()
        invariant
            0 <= i <= events.len(),
            pairs@ == character_pairs(events@.take(i as int), characters@),
        decreases events.len() - i,
    {
        proof {
            assert(events@.take(i + 1).drop_last() =~= events@.take(i as int));
        }
        let ev = events[i];
        let ghost before = pairs@;
        if let CollisionEvent::Started(e1, e2) = ev {
            if e1 != e2 && contains_entity(characters, e1) && contains_entity(characters, e2) {
                pairs.push((e1, e2));
            }
        }
        proof {
            assert(pairs@ =~= before + event_character_pair(ev, characters@));
        }
        i = i + 1;
    }
    proof {
        assert(events@.take(events.len() as int) =~= events@);
    }
    pairs
}

} // verus!
