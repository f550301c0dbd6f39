use kill_them_all::items::{
    equip_equipment, update_player_on_drop_item, DropChange, EquipDecision, EquipmentItem,
};
use kill_them_all::orb::Equipment;

fn item(entity: u64, kind: Equipment, parent: u64) -> EquipmentItem {
    EquipmentItem { entity, kind, parent }
}

#[test]
fn equipping_swaps_the_worn_equipment_of_the_same_kind() {
    let player = 1;
    let inventory = 2;
    let items = vec![
        item(10, Equipment::Helmet, player),
        item(11, Equipment::Boots, player),
        item(12, Equipment::Helmet, inventory),
    ];
    assert_eq!(
        equip_equipment(&items, player, 12),
        EquipDecision::Equip { replaced: Some(10) }
    );
}

#[test]
fn equipping_a_new_kind_replaces_nothing() {
    let items = vec![item(11, Equipment::Boots, 1), item(13, Equipment::Amulet, 2)];
    assert_eq!(equip_equipment(&items, 1, 13), EquipDecision::Equip { replaced: None });
}

#[test]
fn equipping_the_worn_equipment_replaces_nothing() {
    let items = vec![item(10, Equipment::Helmet, 1)];
    assert_eq!(equip_equipment(&items, 1, 10), EquipDecision::Equip { replaced: None });
}

#[test]
fn only_equipments_can_be_equipped() {
    let items = vec![item(10, Equipment::Helmet, 1)];
    assert_eq!(equip_equipment(&items, 1, 99), EquipDecision::NotEquipment);
}

#[test]
fn dropping_an_item_from_where_it_was() {
    assert_eq!(update_player_on_drop_item(Some(1), 1, 2), Some(DropChange::Player));
    assert_eq!(update_player_on_drop_item(Some(2), 1, 2), Some(DropChange::Inventory));
    assert_eq!(update_player_on_drop_item(Some(3), 1, 2), Some(DropChange::Other));
    assert_eq!(update_player_on_drop_item(None, 1, 2), None);
}
