use vstd::multiset::Multiset;
use vstd::prelude::*;

verus! {

/// `i` is the first position of `x` in `s`.
pub open spec fn is_first_index(s: Seq<u64>, x: u64, i: int) -> bool {
    &&& 0 <= i < s.len()
    &&& s[i] == x
    &&& forall|j: int| 0 <= j < i ==> s[j] != x
}

/// The list once `selected` is taken out of it: its first occurrence is
/// replaced by the last entity, which is then removed.
pub open spec fn remaining_after_take(list: Seq<u64>, selected: u64) -> Seq<u64> {
    let i = choose|i: int| is_first_index(list, selected, i);
    list.update(i, list.last()).drop_last()
}

/// Take the selected entity out of the list of offered entities (the
/// upgrades of the level-up menu, the equipments of the end-of-round
/// menu): when it is in the list, its first occurrence is replaced by the
/// last entity of the list, which is then removed, and the result is
/// `true`; otherwise the list is left as it is. Either way no other entity
/// is lost or added: one occurrence of the selected entity leaves the list.
pub fn take_selected(list: &mut Vec<u64>, selected: u64) -> (found: bool)
    ensures
        found == old(list)@.contains(selected),
        found ==> exists|i: int|
            is_first_index(old(list)@, selected, i) && final(list)@ == old(list)@.update(
                i,
                old(list)@.last(),
            ).drop_last(),
        found ==> final(list)@.to_multiset() == old(list)@.to_multiset().remove(selected),
        found ==> final(list)@ == remaining_after_take(old(list)@, selected),
        !found ==> final(list)@ == old(list)@,
{
    let mut i: usize = 0;
    while i < list.len()
        invariant
            0 <= i <= list.len(),
            list@ == old(list)@,
            forall|j: int| 0 <= j < i ==> list@[j] != selected,
        decreases list.len() - i,
    {
        if list[i] == selected {
            let ghost before = list@;
            list.swap_remove(i);
            proof {
                assert(is_first_index(before, selected, i as int));
                lemma_swap_remove_multiset(before, i as int);
                let k = choose|k: int| is_first_index(before, selected, k);
                assert(k == i as int) by {
                    if k < i {
                        assert(before[k] != selected);
                    } else if k > i {
                        assert(before[i as int] != selected);
                    }
                }
            }
            return true;
        }
        i = i + 1;
    }
    false
}

/// Upgrade the player from the level-up menu: when the chosen upgrade is
/// among the offered ones, it leaves the list (it goes to the player) and
/// the game runs again; otherwise nothing happens.
pub fn upgrade_skill(list: &mut Vec<u64>, selected: u64) -> (next_state: Option<InGameState>)
    ensures
        next_state == if old(list)@.contains(selected) {
            Some(InGameState::Running)
        } else {
            None::<InGameState>
        },
        old(list)@.contains(selected) ==> final(list)@ == remaining_after_take(
            old(list)@,
            selected,
        ),
        !old(list)@.contains(selected) ==> final(list)@ == old(list)@,
{
    if take_selected(list, selected) {
        Some(InGameState::Running)
    } else {
        None
    }
}

/// When the level-up menu closes, the upgrades still offered are despawned
/// and the list is discarded.
pub fn despawn_remaining_upgrades(list: &mut Vec<u64>) -> (despawned: Vec<u64>)
    ensures
        despawned@ == old(list)@,
        final(list)@.len() == 0,
{
    let mut despawned: Vec<u64> = Vec::new();
    std::mem::swap(&mut despawned, list);
    despawned
}

/// Choosing an upgrade keeps it from being despawned and despawns every
/// other one: when the offered upgrades are distinct and the chosen one is
/// offered, the list left after the choice (the upgrades despawned when the
/// menu closes) holds every other offered upgrade and not the chosen one.
pub proof fn lemma_upgrade_choice(list: Seq<u64>, selected: u64)
    requires
        list.no_duplicates(),
        list.contains(selected),
    ensures
        !remaining_after_take(list, selected).contains(selected),
        forall|x: u64|
            list.contains(x) && x != selected ==> #[trigger] remaining_after_take(
                list,
                selected,
            ).contains(x),
        remaining_after_take(list, selected).len() + 1 == list.len(),
{
    let j = choose|j: int| 0 <= j < list.len() && list[j] == selected;
    assert(is_first_index(list, selected, j)) by {
        assert forall|k: int| 0 <= k < j implies list[k] != selected by {
            assert(list[k] != list[j]);
        }
    }
    let i = choose|i: int| is_first_index(list, selected, i);
    let n = list.len() - 1;
    let rest = remaining_after_take(list, selected);
    assert(rest =~= list.update(i, list.last()).drop_last());
    assert forall|k: int| 0 <= k < rest.len() implies rest[k] != selected by {
        if k == i {
            if i != n {
                assert(list[n] != list[i]);
            }
        } else {
            assert(list[k] != list[i]);
        }
    }
    assert forall|x: u64| list.contains(x) && x != selected implies #[trigger] rest.contains(x) by {
        let m = choose|m: int| 0 <= m < list.len() && list[m] == x;
        if m == n {
            assert(i != n);
            assert(rest[i] == x);
        } else {
            assert(m != i);
            assert(rest[m] == x);
        }
    }
}

/// Replacing the entity at `i` by the last one and dropping the last one
/// removes one occurrence of `s[i]` and keeps every other entity.
proof fn lemma_swap_remove_multiset(s: Seq<u64>, i: int)
    requires
        0 <= i < s.len(),
    ensures
        s.update(i, s.last()).drop_last().to_multiset() == s.to_multiset().remove(s[i]),
{
    broadcast use vstd::seq_lib::group_to_multiset_ensures, vstd::multiset::group_multiset_axioms;

    let t = s.update(i, s.last());
    assert(t =~= t.drop_last().push(s.last()));
    assert(s.to_multiset().count(s.last()) > 0) by {
        assert(s.contains(s.last()));
    }
    assert(s.to_multiset().count(s[i]) > 0) by {
        assert(s.contains(s[i]));
    }
    let d = t.drop_last();
    assert(t.to_multiset() == s.to_multiset().insert(s.last()).remove(s[i]));
    assert(t.to_multiset() == d.to_multiset().insert(s.last()));
    assert forall|x: u64| d.to_multiset().count(x) == s.to_multiset().remove(s[i]).count(x) by {
        assert(t.to_multiset().count(x) == d.to_multiset().insert(s.last()).count(x));
        assert(t.to_multiset().count(x) == s.to_multiset().insert(s.last()).remove(s[i]).count(x));
    }
    assert(d.to_multiset() =~= s.to_multiset().remove(s[i]));
}

/// The entities of `list` equal to `selected`, in order.
pub open spec fn selected_entries(list: Seq<u64>, selected: u64) -> Seq<u64>
    decreases list.len(),
{
    if list.len() == 0 {
        seq![]
    } else {
        let prev = selected_entries(list.drop_last(), selected);
        if list.last() == selected {
            prev.push(list.last())
        } else {
            prev
        }
    }
}

/// The entities of `list` other than `selected`, in order.
pub open spec fn unselected_entries(list: Seq<u64>, selected: u64) -> Seq<u64>
    decreases list.len(),
{
    if list.len() == 0 {
        seq![]
    } else {
        let prev = unselected_entries(list.drop_last(), selected);
        if list.last() != selected {
            prev.push(list.last())
        } else {
            prev
        }
    }
}

/// Choosing among offered equipments loses none and adds none: every
/// offered equipment either goes to the player, when it is the chosen one,
/// or is despawned, when it is not.
pub proof fn lemma_selection_keeps_every_entry(list: Seq<u64>, selected: u64)
    ensures
        selected_entries(list, selected).to_multiset().add(
            unselected_entries(list, selected).to_multiset(),
        ) == list.to_multiset(),
        forall|i: int|
            0 <= i < selected_entries(list, selected).len() ==> #[trigger] selected_entries(
                list,
                selected,
            )[i] == selected,
        forall|i: int|
            0 <= i < unselected_entries(list, selected).len() ==> #[trigger] unselected_entries(
                list,
                selected,
            )[i] != selected,
    decreases list.len(),
{
    broadcast use vstd::seq_lib::group_to_multiset_ensures, vstd::multiset::group_multiset_axioms;

    if list.len() == 0 {
        assert(list.to_multiset() =~= Multiset::empty());
        assert(selected_entries(list, selected).to_multiset() =~= Multiset::empty());
        assert(unselected_entries(list, selected).to_multiset() =~= Multiset::empty());
        assert(Multiset::<u64>::empty().add(Multiset::empty()) =~= Multiset::empty());
    } else {
        let prev = list.drop_last();
        lemma_selection_keeps_every_entry(prev, selected);
        assert(list =~= prev.push(list.last()));
        let sp = selected_entries(prev, selected);
        let up = unselected_entries(prev, selected);
        if list.last() == selected {
            assert(sp.push(list.last()).to_multiset() == sp.to_multiset().insert(list.last()));
            assert(selected_entries(list, selected).to_multiset().add(up.to_multiset())
                =~= list.to_multiset());
        } else {
            assert(up.push(list.last()).to_multiset() == up.to_multiset().insert(list.last()));
            assert(sp.to_multiset().add(unselected_entries(list, selected).to_multiset())
                =~= list.to_multiset());
        }
    }
}

/// The equipments offered at the end of a round, once one is chosen.
pub struct Selection {
    /// The equipments that go to the player.
    pub to_player: Vec<u64>,
    /// The equipments that are despawned.
    pub despawned: Vec<u64>,
    /// The state the game goes to: it runs again.
    pub next_state: InGameState,
}

/// Select an equipment at the end of a round: the chosen equipment goes
/// to the player, every other one offered is despawned, the list of
/// offered equipments is discarded and the game runs again.
pub fn select_equipment(list: &mut Vec<u64>, selected: u64) -> (res: Selection)
    ensures
        res.to_player@ == selected_entries(old(list)@, selected),
        res.despawned@ == unselected_entries(old(list)@, selected),
        final(list)@.len() == 0,
        res.next_state == InGameState::Running,
{
    let mut to_player: Vec<u64> = Vec::new();
    let mut despawned: Vec<u64> = Vec::new();
    let mut i: usize = 0;
    while i < list.len()
        invariant
            0 <= i <= list.len(),
            to_player@ == selected_entries(list@.take(i as int), selected),
            despawned@ == unselected_entries(list@.take(i as int), selected),
        decreases list.len() - i,
    {
        proof {
            assert(list@.take(i + 1).drop_last() =~= list@.take(i as int));
        }
        let e = list[i];
        if e == selected {
            to_player.push(e);
        } else {
            despawned.push(e);
        }
        i = i + 1;
    }
    proof {
        assert(list@.take(list.len() as int) =~= list@);
    }
    list.clear();
    Selection { to_player, despawned, next_state: InGameState::Running }
}

/// What dropping a dragged item on a location of the inventory does.
#[derive(Clone, Copy, Debug, PartialEq, Eq, Structural)]
pub enum DropOnLocation {
    /// Nothing: no item was dragged, the location is not in the inventory,
    /// or the item dropped on another item is not an orb.
    Nothing,
    /// The location is empty: the item goes to the inventory there.
    AddToInventory { item: u64, index: usize },
    /// An orb dropped on an item is used on that item.
    ActivateOrb { orb: u64, item: u64 },
}

/// Drop an item on an inventory location: `dragged` is the item the cursor
/// drags, `location` the index of the location (when it is one) with the
/// item stored there, and `dragged_is_orb` whether the dragged item is an orb.
pub fn on_drop_on_location(
    dragged: Option<u64>,
    location: Option<(usize, Option<u64>)>,
    dragged_is_orb: bool,
) -> (action: DropOnLocation)
    ensures
        action == match (dragged, location) {
            (Some(item), Some((index, None))) => DropOnLocation::AddToInventory { item, index },
            (Some(item), Some((_, Some(target)))) => if dragged_is_orb {
                DropOnLocation::ActivateOrb { orb: item, item: target }
            } else {
                DropOnLocation::Nothing
            },
            _ => DropOnLocation::Nothing,
        },
{
    let drop_item = match dragged {
        Some(item) => item,
        None => {
            return DropOnLocation::Nothing;
        },
    };
    let (index, stored) = match location {
        Some(l) => l,
        None => {
            return DropOnLocation::Nothing;
        },
    };
    match stored {
        None => DropOnLocation::AddToInventory { item: drop_item, index },
        Some(target_item) => {
            if dragged_is_orb {
                DropOnLocation::ActivateOrb { orb: drop_item, item: target_item }
            } else {
                DropOnLocation::Nothing
            }
        },
    }
}

/// Visibility of a window.
#[derive(Clone, Copy, Debug, PartialEq, Eq, Structural)]
pub enum Visibility {
    Inherited,
    Hidden,
    Visible,
}

/// Whether the keys pressed toggle the inventory window: `I` always does,
/// `Space` does unless the window exists and is hidden.
pub fn trigger_toggle_window(i_pressed: bool, space_pressed: bool, window: Option<Visibility>) -> (toggle:
    bool)
    ensures
        toggle == (i_pressed || (space_pressed && window != Some(Visibility::Hidden))),
{
    let not_hidden = match window {
        Some(Visibility::Hidden) => false,
        _ => true,
    };
    i_pressed || (space_pressed && not_hidden)
}

/// What toggling the inventory window does.
#[derive(Clone, Copy, Debug, PartialEq, Eq, Structural)]
pub enum ToggleWindow {
    /// The window exists: give it this visibility.
    SetVisibility(Visibility),
    /// There is no window yet: spawn it.
    Spawn,
}

/// Toggle the inventory window: a hidden window is shown, a shown one is
/// hidden, and a missing one is spawned.
pub fn toggle_window(window: Option<Visibility>) -> (action: ToggleWindow)
    ensures
        action == match window {
            None => ToggleWindow::Spawn,
            Some(Visibility::Hidden) => ToggleWindow::SetVisibility(Visibility::Inherited),
            Some(_) => ToggleWindow::SetVisibility(Visibility::Hidden),
        },
{
    match window {
        None => ToggleWindow::Spawn,
        Some(Visibility::Hidden) => ToggleWindow::SetVisibility(Visibility::Inherited),
        Some(_) => ToggleWindow::SetVisibility(Visibility::Hidden),
    }
}

/// An equipment entity and the entity it is attached to.
#[derive(Clone, Copy, Debug, PartialEq, Eq, Structural)]
pub struct Attached {
    pub entity: u64,
    pub parent: u64,
}

/// The first entity of `items` attached to `player`.
pub open spec fn first_worn(items: Seq<Attached>, player: u64) -> Option<u64>
    decreases items.len(),
{
    if items.len() == 0 {
        None
    } else if items[0].parent == player {
        Some(items[0].entity)
    } else {
        first_worn(items.drop_first(), player)
    }
}

/// Update an equipment location of the equipments panel: it shows the
/// first equipment of its kind (`items`) that the player wears, if any.
pub fn update_equipment(items: &Vec<Attached>, player: u64) -> (shown: Option<u64>)
    ensures
        shown == first_worn(items@, player),
{
    let mut i: usize = 0;
    proof {
        assert(items@.skip(0) =~= items@);
    }
    while i < items.len()
        invariant
            0 <= i <= items.len(),
            first_worn(items@, player) == first_worn(items@.skip(i as int), player),
        decreases items.len() - i,
    {
        proof {
            assert(items@.skip(i as int).drop_first() =~= items@.skip(i + 1));
        }
        if items[i].parent == player {
            return Some(items[i].entity);
        }
        i = i + 1;
    }
    proof {
        assert(items@.skip(items.len() as int) =~= Seq::<Attached>::empty());
    }
    None
}

/// The states of the game.
#[derive(Clone, Copy, Debug, PartialEq, Eq, Structural)]
pub enum GameState {
    Menu,
    InGame,
}

/// The states of a running game.
#[derive(Clone, Copy, Debug, PartialEq, Eq, Structural)]
pub enum InGameState {
    Disabled,
    Running,
    Pause,
    LevelUp,
    RoundEnd,
    PlayerDied,
}

/// The buttons of the pause menu.
#[derive(Clone, Copy, Debug, PartialEq, Eq, Structural)]
pub enum MenuButtonAction {
    BackToGame,
    QuitGame,
}

/// A change of state asked by a menu.
#[derive(Clone, Copy, Debug, PartialEq, Eq, Structural)]
pub enum StateChange {
    InGame(InGameState),
    Game(GameState),
}

/// Pause menu action: going back to the game runs it again, quitting
/// goes back to the main menu.
pub fn menu_action(action: MenuButtonAction) -> (change: StateChange)
    ensures
        change == match action {
            MenuButtonAction::BackToGame => StateChange::InGame(InGameState::Running),
            MenuButtonAction::QuitGame => StateChange::Game(GameState::Menu),
        },
{
    match action {
        MenuButtonAction::BackToGame => StateChange::InGame(InGameState::Running),
        MenuButtonAction::QuitGame => StateChange::Game(GameState::Menu),
    }
}

/// Player died menu: `Enter`, or a press on the button, leads back to the
/// main menu and disables the game; the result is then the new pair of
/// states.
pub fn back_to_menu(enter_pressed: bool, button_pressed: bool) -> (change: Option<(GameState, InGameState)>)
    ensures
        change == if enter_pressed || button_pressed {
            Some((GameState::Menu, InGameState::Disabled))
        } else {
            None
        },
{
    if enter_pressed || button_pressed {
        Some((GameState::Menu, InGameState::Disabled))
    } else {
        None
    }
}

} // verus!
