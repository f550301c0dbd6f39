use glam::Vec2;
use kill_them_all::character::{action_target, do_character_action, ActionTarget, CharacterAction};

#[test]
fn clicking_on_the_map_makes_the_player_go_there() {
    let mut action = CharacterAction::Stop;
    action.goto(Vec2::new(3.0, -2.0));
    assert!(matches!(action, CharacterAction::GoTo(p) if p == Vec2::new(3.0, -2.0)));
    assert!(matches!(action_target(&action), ActionTarget::Point(p) if p == Vec2::new(3.0, -2.0)));
}

#[test]
fn player_stops_when_it_reaches_its_point() {
    let mut action = CharacterAction::GoTo(Vec2::new(1.0, 1.0));
    assert_eq!(do_character_action(&mut action, false, false), None);
    assert!(matches!(action, CharacterAction::GoTo(_)));
    assert_eq!(do_character_action(&mut action, false, true), None);
    assert!(matches!(action, CharacterAction::Stop));
}

#[test]
fn player_takes_the_item_it_reaches() {
    let mut action = CharacterAction::Stop;
    action.take_item(42);
    assert!(matches!(action_target(&action), ActionTarget::Item(42)));
    assert_eq!(do_character_action(&mut action, true, false), None);
    assert!(matches!(action, CharacterAction::TakeItem(42)));
    assert_eq!(do_character_action(&mut action, true, true), Some(42));
    assert!(matches!(action, CharacterAction::Stop));
}

#[test]
fn player_stops_when_the_item_is_gone() {
    let mut action = CharacterAction::TakeItem(42);
    assert_eq!(do_character_action(&mut action, false, true), None);
    assert!(matches!(action, CharacterAction::Stop));
}

#[test]
fn stopped_player_stays_stopped() {
    let mut action = CharacterAction::Stop;
    assert_eq!(do_character_action(&mut action, true, true), None);
    assert!(matches!(action, CharacterAction::Stop));
    assert!(matches!(action_target(&action), ActionTarget::Still));
    action.goto(Vec2::ZERO);
    action.stop();
    assert!(matches!(action, CharacterAction::Stop));
}
