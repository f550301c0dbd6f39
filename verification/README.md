# Kill Them All — verified game rules

The rules of "Kill Them All", a small action RPG built on Bevy, written in
Verus and proved against their contracts.

- `src/` is the verified library: collisions between bullets, monsters,
  bonuses, damagers and the player; monster waves, hits and deaths; the
  player's life, hits, level ups, skill books and skills; what a character
  does when it reaches the point clicked on the map or the item it goes to
  take; orbs that change the rarity of equipments; the decisions of the
  in-game menus. Entities of the game engine are identified by their `u64`
  bits. The library calls `rand` (through `random_below`) behind a trusted
  item whose contract is documented where it stands. It also hands two
  `f32` vectors to glam to build a bullet's direction, with nothing claimed
  of the `f32` result.
- `tests/` runs the library on concrete values.
- `app/` holds the Bevy plugins and systems: they read the ECS world, call
  the library and apply its decisions. The decisions that depend on
  floating point (positions, velocities, distances, damage ranges) stay
  there.

Laws proved in `src/` include: monster waves grow by one monster each
(`monster::lemma_waves_grow`); the sprite animations cycle through four
frames (`monster::lemma_monster_animation_cycle`,
`player::lemma_player_animation_cycle`); orbs never lower the rarity of an
item and lead any item to rare (`orb`); a player with `n` life points dies
at its `n`-th hit (`player::lemma_player_dies_at_last_point`); the bullets
despawned in a frame and the monsters reported hit agree
(`collisions::lemma_hits_and_despawned_bullets_agree`); choosing among
offered equipments loses none (`menu::lemma_selection_keeps_every_entry`);
a chosen level-up upgrade is kept and every other offered one is left to
despawn (`menu::lemma_upgrade_choice`).
