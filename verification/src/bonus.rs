use crate::random::random_below;
use vstd::prelude::*;

verus! {

/// A bonus drops when the roll in `0..100` is below 20: one chance out of five.
pub open spec fn spec_bonus_drops(roll: u32) -> bool {
    roll < 20
}

/// Whether a dying monster drops a bonus, for a roll in `0..100`.
pub fn bonus_drops(roll: u32) -> (drops: bool)
    ensures
        drops == spec_bonus_drops(roll),
{
    roll < 20
}

/// Whether a bonus drops at each monster death, from the roll in `0..100`
/// drawn for that death.
pub fn bonus_drops_for(rolls: &Vec<u32>) -> (drops: Vec<bool>)
    ensures
        drops@.len() == rolls@.len(),
        forall|i: int| 0 <= i < rolls@.len() ==> drops@[i] == spec_bonus_drops(#[trigger] rolls@[i]),
{
    let mut drops: Vec<bool> = Vec::new();
    let mut i: usize = 0;
    while i < rolls.len()
        invariant
            0 <= i <= rolls.len(),
            drops@.len() == i,
            forall|j: int| 0 <= j < i ==> drops@[j] == spec_bonus_drops(#[trigger] rolls@[j]),
        decreases rolls.len() - i,
    {
        drops.push(bonus_drops(rolls[i]));
        i = i + 1;
    }
    drops
}

/// Spawn bonuses where monsters die: for each of the `deaths` monster
/// deaths, a roll in `0..100` is drawn and a bonus drops there when the roll
/// is below 20, one chance out of five. Which deaths drop one is chance.
pub fn spawn_bonus(deaths: usize) -> (drops: Vec<bool>)
    ensures
        drops@.len() == deaths,
{
    let mut rolls: Vec<u32> = Vec::new();
    let mut i: usize = 0;
    while i < deaths
        invariant
            0 <= i <= deaths,
            rolls@.len() == i,
        decreases deaths - i,
    {
        rolls.push(random_below(100));
        i = i + 1;
    }
    bonus_drops_for(&rolls)
}

} // verus!
