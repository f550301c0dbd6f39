use vstd::prelude::*;

verus! {

/// The orbs that change the affixes and the rarity of an equipment.
#[derive(Clone, Copy, Debug, PartialEq, Eq, Structural)]
pub enum Orb {
    /// Turns a normal item into a magic one, with new affixes.
    Transmutation,
    /// Turns a magic item into a rare one, adding one affix.
    Regal,
    /// Rerolls the affixes of a rare item.
    Chaos,
}

/// The kinds of equipment.
#[derive(Clone, Copy, Debug, PartialEq, Eq, Structural)]
pub enum Equipment {
    Amulet,
    BodyArmour,
    Boots,
    Helmet,
    Weapon,
}

/// The item component that an orb event works on (a weapon is a wand).
#[derive(Clone, Copy, Debug, PartialEq, Eq, Structural)]
pub enum OrbTarget {
    Amulet,
    BodyArmour,
    Boots,
    Helmet,
    Wand,
}

/// The event sent to apply an orb on an equipment.
#[derive(Clone, Copy, Debug, PartialEq, Eq, Structural)]
pub struct OrbEvent {
    pub orb: Orb,
    pub target: OrbTarget,
}

/// The item component of an equipment of kind `equipment`.
pub open spec fn spec_orb_target(equipment: Equipment) -> OrbTarget {
    match equipment {
        Equipment::Amulet => OrbTarget::Amulet,
        Equipment::BodyArmour => OrbTarget::BodyArmour,
        Equipment::Boots => OrbTarget::Boots,
        Equipment::Helmet => OrbTarget::Helmet,
        Equipment::Weapon => OrbTarget::Wand,
    }
}

/// Activate an orb on an item: when the orb entity is an orb and the item
/// an equipment, the event of that orb for that kind of equipment; else
/// nothing happens.
pub fn on_activate_orb(orb: Option<Orb>, equipment: Option<Equipment>) -> (event: Option<OrbEvent>)
    ensures
        event == match (orb, equipment) {
            (Some(o), Some(e)) => Some(OrbEvent { orb: o, target: spec_orb_target(e) }),
            _ => None,
        },
        event matches Some(ev) ==> {
            &&& equipment == Some(Equipment::Amulet) ==> ev.target == OrbTarget::Amulet
            &&& equipment == Some(Equipment::BodyArmour) ==> ev.target == OrbTarget::BodyArmour
            &&& equipment == Some(Equipment::Boots) ==> ev.target == OrbTarget::Boots
            &&& equipment == Some(Equipment::Helmet) ==> ev.target == OrbTarget::Helmet
            &&& equipment == Some(Equipment::Weapon) ==> ev.target == OrbTarget::Wand
        },
{
    let orb = match orb {
        Some(orb) => orb,
        None => {
            return None;
        },
    };
    let equipment = match equipment {
        Some(equipment) => equipment,
        None => {
            return None;
        },
    };
    let target = match equipment {
        Equipment::Amulet => OrbTarget::Amulet,
        Equipment::BodyArmour => OrbTarget::BodyArmour,
        Equipment::Boots => OrbTarget::Boots,
        Equipment::Helmet => OrbTarget::Helmet,
        Equipment::Weapon => OrbTarget::Wand,
    };
    Some(OrbEvent { orb, target })
}

/// An orb used on an equipment acts on the component of the equipment's own
/// kind: each kind other than the weapon maps to its namesake, the weapon
/// maps to the wand, and two different kinds never map to the same
/// component.
pub proof fn lemma_orb_targets_own_kind(e1: Equipment, e2: Equipment)
    ensures
        spec_orb_target(e1) == spec_orb_target(e2) ==> e1 == e2,
        spec_orb_target(Equipment::Amulet) == OrbTarget::Amulet,
        spec_orb_target(Equipment::BodyArmour) == OrbTarget::BodyArmour,
        spec_orb_target(Equipment::Boots) == OrbTarget::Boots,
        spec_orb_target(Equipment::Helmet) == OrbTarget::Helmet,
        spec_orb_target(Equipment::Weapon) == OrbTarget::Wand,
{
}

/// Rarity of an item.
#[derive(Clone, Copy, Debug, PartialEq, Eq, Structural)]
pub enum ItemRarity {
    Normal,
    Magic,
    Rare,
}

/// Rank of a rarity: normal, then magic, then rare.
pub open spec fn rarity_rank(rarity: ItemRarity) -> int {
    match rarity {
        ItemRarity::Normal => 0,
        ItemRarity::Magic => 1,
        ItemRarity::Rare => 2,
    }
}

/// How many affixes an orb generates.
#[derive(Clone, Copy, Debug, PartialEq, Eq, Structural)]
pub enum AffixCount {
    /// As many as items of this rarity have.
    OfRarity(ItemRarity),
    /// Exactly this number.
    Exactly(u8),
}

/// What applying an orb does to an item.
#[derive(Clone, Copy, Debug, PartialEq, Eq, Structural)]
pub struct OrbEffect {
    /// The item loses its affixes first.
    pub reset_affixes: bool,
    /// Rarity of the item afterwards, also the rarity of the new affixes.
    pub rarity: ItemRarity,
    /// Number of new affixes generated.
    pub new_affixes: AffixCount,
}

/// The effect of `orb` on an item of rarity `rarity`, when it applies:
/// a transmutation makes a normal item magic with new affixes, a regal
/// makes a magic item rare with one more affix, a chaos rerolls the
/// affixes of a rare item.
pub open spec fn spec_orb_effect(orb: Orb, rarity: ItemRarity) -> Option<OrbEffect> {
    match (orb, rarity) {
        (Orb::Transmutation, ItemRarity::Normal) => Some(
            OrbEffect {
                reset_affixes: true,
                rarity: ItemRarity::Magic,
                new_affixes: AffixCount::OfRarity(ItemRarity::Magic),
            },
        ),
        (Orb::Regal, ItemRarity::Magic) => Some(
            OrbEffect {
                reset_affixes: false,
                rarity: ItemRarity::Rare,
                new_affixes: AffixCount::Exactly(1),
            },
        ),
        (Orb::Chaos, ItemRarity::Rare) => Some(
            OrbEffect {
                reset_affixes: true,
                rarity: ItemRarity::Rare,
                new_affixes: AffixCount::OfRarity(ItemRarity::Rare),
            },
        ),
        _ => None,
    }
}

/// The effect of the orb `expected` applied on an item: `orb` is what the
/// orb entity is (if it is an orb) and `rarity` the rarity of the item (if
/// it is an item of the targeted kind).
pub open spec fn spec_apply_orb(expected: Orb, orb: Option<Orb>, rarity: Option<ItemRarity>) -> Option<
    OrbEffect,
> {
    match (orb, rarity) {
        (Some(o), Some(r)) => if o == expected {
            spec_orb_effect(expected, r)
        } else {
            None
        },
        _ => None,
    }
}

/// Transmutation: the orb must be an orb of transmutation and the item a
/// normal item; it then loses its affixes, becomes magic and gets the
/// affixes of a magic item. Otherwise nothing happens.
pub fn on_transmute(orb: Option<Orb>, rarity: Option<ItemRarity>) -> (effect: Option<OrbEffect>)
    ensures
        effect == spec_apply_orb(Orb::Transmutation, orb, rarity),
{
    match orb {
        Some(Orb::Transmutation) => {},
        _ => {
            return None;
        },
    }
    match rarity {
        Some(ItemRarity::Normal) => Some(
            OrbEffect {
                reset_affixes: true,
                rarity: ItemRarity::Magic,
                new_affixes: AffixCount::OfRarity(ItemRarity::Magic),
            },
        ),
        _ => None,
    }
}

/// Regal: the orb must be a regal orb and the item a magic item; it then
/// becomes rare and gets one more affix. Otherwise nothing happens.
pub fn on_regal(orb: Option<Orb>, rarity: Option<ItemRarity>) -> (effect: Option<OrbEffect>)
    ensures
        effect == spec_apply_orb(Orb::Regal, orb, rarity),
{
    match orb {
        Some(Orb::Regal) => {},
        _ => {
            return None;
        },
    }
    match rarity {
        Some(ItemRarity::Magic) => Some(
            OrbEffect {
                reset_affixes: false,
                rarity: ItemRarity::Rare,
                new_affixes: AffixCount::Exactly(1),
            },
        ),
        _ => None,
    }
}

/// Chaos: the orb must be a chaos orb and the item a rare item; it then
/// loses its affixes and gets the affixes of a rare item, staying rare.
/// Otherwise nothing happens.
pub fn on_chaos(orb: Option<Orb>, rarity: Option<ItemRarity>) -> (effect: Option<OrbEffect>)
    ensures
        effect == spec_apply_orb(Orb::Chaos, orb, rarity),
{
    match orb {
        Some(Orb::Chaos) => {},
        _ => {
            return None;
        },
    }
    match rarity {
        Some(ItemRarity::Rare) => Some(
            OrbEffect {
                reset_affixes: true,
                rarity: ItemRarity::Rare,
                new_affixes: AffixCount::OfRarity(ItemRarity::Rare),
            },
        ),
        _ => None,
    }
}

/// An orb never lowers the rarity of an item: a transmutation or a regal
/// raises it by one step, a chaos keeps it.
pub proof fn lemma_orbs_never_lower_rarity(orb: Orb, rarity: ItemRarity)
    ensures
        spec_orb_effect(orb, rarity) matches Some(effect) ==> {
            &&& rarity_rank(effect.rarity) >= rarity_rank(rarity)
            &&& (orb == Orb::Chaos) == (rarity_rank(effect.rarity) == rarity_rank(rarity))
        },
{
}

/// Exactly one kind of orb applies to an item of a given rarity:
/// transmutation to normal items, regal to magic items, chaos to rare ones.
pub proof fn lemma_one_orb_per_rarity(rarity: ItemRarity)
    ensures
        (spec_orb_effect(Orb::Transmutation, rarity) is Some) == (rarity == ItemRarity::Normal),
        (spec_orb_effect(Orb::Regal, rarity) is Some) == (rarity == ItemRarity::Magic),
        (spec_orb_effect(Orb::Chaos, rarity) is Some) == (rarity == ItemRarity::Rare),
{
}

/// The orb that applies to an item of rarity `rarity`.
pub open spec fn applicable_orb(rarity: ItemRarity) -> Orb {
    match rarity {
        ItemRarity::Normal => Orb::Transmutation,
        ItemRarity::Magic => Orb::Regal,
        ItemRarity::Rare => Orb::Chaos,
    }
}

/// Whatever its rarity, an item becomes rare after at most two orbs, each
/// being the one that applies to it, and a rare item stays rare.
pub proof fn lemma_orbs_lead_to_rare(rarity: ItemRarity)
    ensures
        ({
            let first = spec_orb_effect(applicable_orb(rarity), rarity);
            let r1 = first.unwrap().rarity;
            let second = spec_orb_effect(applicable_orb(r1), r1);
            &&& first is Some
            &&& second is Some
            &&& second.unwrap().rarity == ItemRarity::Rare
            &&& rarity == ItemRarity::Rare ==> r1 == ItemRarity::Rare
        }),
{
}

} // verus!
