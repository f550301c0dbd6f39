use kill_them_all::orb::{
    on_activate_orb, on_chaos, on_regal, on_transmute, AffixCount, Equipment, ItemRarity, Orb,
    OrbEffect, OrbEvent, OrbTarget,
};

#[test]
fn orb_on_equipment_targets_its_kind() {
    assert_eq!(
        on_activate_orb(Some(Orb::Regal), Some(Equipment::Weapon)),
        Some(OrbEvent { orb: Orb::Regal, target: OrbTarget::Wand })
    );
    assert_eq!(
        on_activate_orb(Some(Orb::Chaos), Some(Equipment::Boots)),
        Some(OrbEvent { orb: Orb::Chaos, target: OrbTarget::Boots })
    );
    assert_eq!(
        on_activate_orb(Some(Orb::Transmutation), Some(Equipment::Amulet)),
        Some(OrbEvent { orb: Orb::Transmutation, target: OrbTarget::Amulet })
    );
    assert_eq!(on_activate_orb(None, Some(Equipment::Helmet)), None);
    assert_eq!(on_activate_orb(Some(Orb::Chaos), None), None);
}

#[test]
fn transmutation_makes_normal_items_magic() {
    assert_eq!(
        on_transmute(Some(Orb::Transmutation), Some(ItemRarity::Normal)),
        Some(OrbEffect {
            reset_affixes: true,
            rarity: ItemRarity::Magic,
            new_affixes: AffixCount::OfRarity(ItemRarity::Magic),
        })
    );
    assert_eq!(on_transmute(Some(Orb::Transmutation), Some(ItemRarity::Magic)), None);
    assert_eq!(on_transmute(Some(Orb::Regal), Some(ItemRarity::Normal)), None);
    assert_eq!(on_transmute(Some(Orb::Transmutation), None), None);
}

#[test]
fn regal_makes_magic_items_rare() {
    assert_eq!(
        on_regal(Some(Orb::Regal), Some(ItemRarity::Magic)),
        Some(OrbEffect {
            reset_affixes: false,
            rarity: ItemRarity::Rare,
            new_affixes: AffixCount::Exactly(1),
        })
    );
    assert_eq!(on_regal(Some(Orb::Regal), Some(ItemRarity::Rare)), None);
    assert_eq!(on_regal(None, Some(ItemRarity::Magic)), None);
}

#[test]
fn chaos_rerolls_rare_items() {
    assert_eq!(
        on_chaos(Some(Orb::Chaos), Some(ItemRarity::Rare)),
        Some(OrbEffect {
            reset_affixes: true,
            rarity: ItemRarity::Rare,
            new_affixes: AffixCount::OfRarity(ItemRarity::Rare),
        })
    );
    assert_eq!(on_chaos(Some(Orb::Chaos), Some(ItemRarity::Normal)), None);
    assert_eq!(on_chaos(Some(Orb::Transmutation), Some(ItemRarity::Rare)), None);
}

#[test]
fn two_orbs_make_a_normal_item_rare() {
    let first = on_transmute(Some(Orb::Transmutation), Some(ItemRarity::Normal)).unwrap();
    let second = on_regal(Some(Orb::Regal), Some(first.rarity)).unwrap();
    assert_eq!(second.rarity, ItemRarity::Rare);
    let third = on_chaos(Some(Orb::Chaos), Some(second.rarity)).unwrap();
    assert_eq!(third.rarity, ItemRarity::Rare);
}
