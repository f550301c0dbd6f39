use kill_them_all::menu::{
    back_to_menu, despawn_remaining_upgrades, menu_action, on_drop_on_location, select_equipment,
    take_selected, upgrade_skill,
    toggle_window, trigger_toggle_window, update_equipment, Attached, DropOnLocation, GameState,
    InGameState, MenuButtonAction, StateChange, ToggleWindow, Visibility,
};

#[test]
fn taking_the_selected_entity_swaps_in_the_last_one() {
    let mut list = vec![1, 2, 3, 2, 4];
    assert!(take_selected(&mut list, 2));
    assert_eq!(list, vec![1, 4, 3, 2]);
    assert!(!take_selected(&mut list, 9));
    assert_eq!(list, vec![1, 4, 3, 2]);
    assert!(take_selected(&mut list, 2));
    assert_eq!(list, vec![1, 4, 3]);
}

#[test]
fn taking_keeps_every_other_entity() {
    let before = vec![5, 6, 7, 8];
    let mut list = before.clone();
    assert!(take_selected(&mut list, 6));
    let mut sorted = list.clone();
    sorted.sort();
    assert_eq!(sorted, vec![5, 7, 8]);
}

#[test]
fn selecting_an_equipment_despawns_the_others() {
    let mut list = vec![3, 4, 5];
    let res = select_equipment(&mut list, 4);
    assert_eq!(res.to_player, vec![4]);
    assert_eq!(res.despawned, vec![3, 5]);
    assert_eq!(res.next_state, InGameState::Running);
    assert!(list.is_empty());
    let res = select_equipment(&mut vec![3, 5], 4);
    assert!(res.to_player.is_empty());
    assert_eq!(res.despawned, vec![3, 5]);
    assert_eq!(res.to_player.len() + res.despawned.len(), 2);
}

#[test]
fn drop_on_inventory_location() {
    assert_eq!(
        on_drop_on_location(Some(7), Some((3, None)), false),
        DropOnLocation::AddToInventory { item: 7, index: 3 }
    );
    assert_eq!(
        on_drop_on_location(Some(7), Some((3, Some(8))), true),
        DropOnLocation::ActivateOrb { orb: 7, item: 8 }
    );
    assert_eq!(
        on_drop_on_location(Some(7), Some((3, Some(8))), false),
        DropOnLocation::Nothing
    );
    assert_eq!(on_drop_on_location(None, Some((3, None)), true), DropOnLocation::Nothing);
    assert_eq!(on_drop_on_location(Some(7), None, true), DropOnLocation::Nothing);
}

#[test]
fn keys_that_toggle_the_inventory() {
    assert!(trigger_toggle_window(true, false, Some(Visibility::Hidden)));
    assert!(trigger_toggle_window(false, true, Some(Visibility::Visible)));
    assert!(trigger_toggle_window(false, true, None));
    assert!(!trigger_toggle_window(false, true, Some(Visibility::Hidden)));
    assert!(!trigger_toggle_window(false, false, Some(Visibility::Visible)));
}

#[test]
fn toggling_the_inventory_window() {
    assert_eq!(toggle_window(None), ToggleWindow::Spawn);
    assert_eq!(
        toggle_window(Some(Visibility::Hidden)),
        ToggleWindow::SetVisibility(Visibility::Inherited)
    );
    assert_eq!(
        toggle_window(Some(Visibility::Visible)),
        ToggleWindow::SetVisibility(Visibility::Hidden)
    );
    assert_eq!(
        toggle_window(Some(Visibility::Inherited)),
        ToggleWindow::SetVisibility(Visibility::Hidden)
    );
}

#[test]
fn equipment_location_shows_the_worn_item() {
    let items = vec![
        Attached { entity: 20, parent: 2 },
        Attached { entity: 21, parent: 1 },
        Attached { entity: 22, parent: 1 },
    ];
    assert_eq!(update_equipment(&items, 1), Some(21));
    assert_eq!(update_equipment(&items, 3), None);
}

#[test]
fn pause_menu_buttons() {
    assert_eq!(
        menu_action(MenuButtonAction::BackToGame),
        StateChange::InGame(InGameState::Running)
    );
    assert_eq!(menu_action(MenuButtonAction::QuitGame), StateChange::Game(GameState::Menu));
}

#[test]
fn player_died_menu_goes_back_to_the_main_menu() {
    assert_eq!(back_to_menu(true, false), Some((GameState::Menu, InGameState::Disabled)));
    assert_eq!(back_to_menu(false, true), Some((GameState::Menu, InGameState::Disabled)));
    assert_eq!(back_to_menu(false, false), None);
}

#[test]
fn chosen_upgrade_goes_to_the_player_and_the_others_are_despawned() {
    let mut list = vec![7, 8, 9];
    assert_eq!(upgrade_skill(&mut list, 8), Some(InGameState::Running));
    assert_eq!(list, vec![7, 9]);
    let despawned = despawn_remaining_upgrades(&mut list);
    assert_eq!(despawned, vec![7, 9]);
    assert!(list.is_empty());
}

#[test]
fn unknown_upgrade_changes_nothing() {
    let mut list = vec![7, 8, 9];
    assert_eq!(upgrade_skill(&mut list, 1), None);
    assert_eq!(list, vec![7, 8, 9]);
}
