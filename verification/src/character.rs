use glam::Vec2;
use vstd::prelude::*;

verus! {

/// What a character is doing: going to a point of the map (where the
/// player clicked), going to take a dropped item, or nothing.
#[derive(Clone, Copy)]
pub enum CharacterAction {
    GoTo(Vec2),
    TakeItem(u64),
    Stop,
}

impl CharacterAction {
    /// Go to `target` (the player clicks or drags the mouse on the map).
    pub fn goto(&mut self, target: Vec2)
        ensures
            *final(self) == CharacterAction::GoTo(target),
    {
        *self = CharacterAction::GoTo(target);
    }

    /// Go and take the dropped item `item` (the player clicks on it).
    pub fn take_item(&mut self, item: u64)
        ensures
            *final(self) == CharacterAction::TakeItem(item),
    {
        *self = CharacterAction::TakeItem(item);
    }

    /// Do nothing.
    pub fn stop(&mut self)
        ensures
            *final(self) == CharacterAction::Stop,
    {
        *self = CharacterAction::Stop;
    }
}

/// Where an action makes a character move.
#[derive(Clone, Copy)]
pub enum ActionTarget {
    /// Toward this point.
    Point(Vec2),
    /// Toward the position of this dropped item.
    Item(u64),
    /// Nowhere: the character does not move.
    Still,
}

/// Where `action` makes the character move.
pub fn action_target(action: &CharacterAction) -> (target: ActionTarget)
    ensures
        target == match *action {
            CharacterAction::GoTo(p) => ActionTarget::Point(p),
            CharacterAction::TakeItem(e) => ActionTarget::Item(e),
            CharacterAction::Stop => ActionTarget::Still,
        },
{
    match *action {
        CharacterAction::GoTo(p) => ActionTarget::Point(p),
        CharacterAction::TakeItem(e) => ActionTarget::Item(e),
        CharacterAction::Stop => ActionTarget::Still,
    }
}

/// Do a character action, once the character moved toward its target:
/// `item_present` tells whether the item to take still is a dropped item,
/// `arrived` whether the character reached its target. A character that
/// reaches the point it goes to stops; one that reaches the item it goes to
/// stops and takes it (the item is returned); one whose item is gone stops.
/// Otherwise the action goes on.
pub fn do_character_action(action: &mut CharacterAction, item_present: bool, arrived: bool) -> (taken:
    Option<u64>)
    ensures
        match *old(action) {
            CharacterAction::GoTo(p) => {
                &&& taken is None
                &&& *final(action) == if arrived {
                    CharacterAction::Stop
                } else {
                    CharacterAction::GoTo(p)
                }
            },
            CharacterAction::TakeItem(e) => {
                &&& taken == if item_present && arrived {
                    Some(e)
                } else {
                    None::<u64>
                }
                &&& *final(action) == if item_present && !arrived {
                    CharacterAction::TakeItem(e)
                } else {
                    CharacterAction::Stop
                }
            },
            CharacterAction::Stop => taken is None && *final(action) == CharacterAction::Stop,
        },
{
    match *action {
        CharacterAction::GoTo(_) => {
            if arrived {
                action.stop();
            }
            None
        },
        CharacterAction::TakeItem(e) => {
            if !item_present {
                action.stop();
                None
            } else if arrived {
                action.stop();
                Some(e)
            } else {
                None
            }
        },
        CharacterAction::Stop => None,
    }
}

} // verus!
