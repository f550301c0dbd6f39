use crate::orb::Equipment;
use vstd::prelude::*;

verus! {

/// An equipment entity, its kind and the entity it is attached to.
#[derive(Clone, Copy, Debug, PartialEq, Eq, Structural)]
pub struct EquipmentItem {
    pub entity: u64,
    pub kind: Equipment,
    pub parent: u64,
}

/// Kind of the first equipment of `items` that is `entity`.
pub open spec fn kind_of(items: Seq<EquipmentItem>, entity: u64) -> Option<Equipment>
    decreases items.len(),
{
    if items.len() == 0 {
        None
    } else if items[0].entity == entity {
        Some(items[0].kind)
    } else {
        kind_of(items.drop_first(), entity)
    }
}

/// The first equipment of `items`, other than `item`, that `player` wears
/// and that is of kind `kind`.
pub open spec fn worn_of_kind(items: Seq<EquipmentItem>, player: u64, kind: Equipment, item: u64) -> Option<u64>
    decreases items.len(),
{
    if items.len() == 0 {
        None
    } else if items[0].parent == player && items[0].kind == kind && items[0].entity != item {
        Some(items[0].entity)
    } else {
        worn_of_kind(items.drop_first(), player, kind, item)
    }
}

/// The kind found for `entity` is the kind of the first equipment that is
/// `entity`; none is found when no equipment is `entity`.
pub proof fn lemma_kind_of_first_match(items: Seq<EquipmentItem>, entity: u64)
    ensures
        kind_of(items, entity) matches Some(k) ==> exists|i: int|
            0 <= i < items.len() && #[trigger] items[i].entity == entity && items[i].kind == k
                && forall|i2: int| 0 <= i2 < i ==> items[i2].entity != entity,
        kind_of(items, entity) is None ==> forall|i: int|
            0 <= i < items.len() ==> #[trigger] items[i].entity != entity,
    decreases items.len(),
{
    if items.len() > 0 && items[0].entity != entity {
        lemma_kind_of_first_match(items.drop_first(), entity);
        if let Some(k) = kind_of(items, entity) {
            let i = choose|i: int|
                0 <= i < items.drop_first().len() && #[trigger] items.drop_first()[i].entity
                    == entity && items.drop_first()[i].kind == k && forall|i2: int|
                    0 <= i2 < i ==> items.drop_first()[i2].entity != entity;
            assert(items[i + 1].entity == entity);
            assert forall|i2: int| 0 <= i2 < i + 1 implies items[i2].entity != entity by {
                if i2 > 0 {
                    assert(items[i2] == items.drop_first()[i2 - 1]);
                }
            }
        } else {
            assert forall|i: int| 0 <= i < items.len() implies #[trigger] items[i].entity
                != entity by {
                if i > 0 {
                    assert(items[i] == items.drop_first()[i - 1]);
                }
            }
        }
    } else if items.len() > 0 {
        assert(items[0].entity == entity);
    }
}

/// The equipment replaced is one that `player` wears (its parent is the
/// player), of kind `kind`, other than `item`; nothing is replaced when the
/// player wears no other equipment of that kind.
pub proof fn lemma_worn_of_kind_is_worn(
    items: Seq<EquipmentItem>,
    player: u64,
    kind: Equipment,
    item: u64,
)
    ensures
        worn_of_kind(items, player, kind, item) matches Some(e) ==> exists|j: int|
            0 <= j < items.len() && #[trigger] items[j].entity == e && items[j].parent == player
                && items[j].kind == kind && e != item,
        worn_of_kind(items, player, kind, item) is None ==> forall|j: int|
            0 <= j < items.len() ==> !(#[trigger] items[j].parent == player && items[j].kind
                == kind && items[j].entity != item),
    decreases items.len(),
{
    if items.len() > 0 {
        let rest = items.drop_first();
        lemma_worn_of_kind_is_worn(rest, player, kind, item);
        if items[0].parent == player && items[0].kind == kind && items[0].entity != item {
            assert(items[0].entity == items[0].entity);
        } else if let Some(e) = worn_of_kind(items, player, kind, item) {
            let j = choose|j: int|
                0 <= j < rest.len() && #[trigger] rest[j].entity == e && rest[j].parent == player
                    && rest[j].kind == kind && e != item;
            assert(items[j + 1] == rest[j]);
        } else {
            assert forall|j: int| 0 <= j < items.len() implies !(#[trigger] items[j].parent
                == player && items[j].kind == kind && items[j].entity != item) by {
                if j > 0 {
                    assert(items[j] == rest[j - 1]);
                }
            }
        }
    }
}

/// Equipping swaps like for like: the equipment replaced, when there is
/// one, is worn by the player and has the kind of the equipment equipped;
/// an equipment that the player does not wear is never replaced, and
/// nothing is replaced only when the player wears no other equipment of
/// that kind.
pub proof fn lemma_equip_replaces_worn_equipment(items: Seq<EquipmentItem>, player: u64, item: u64)
    ensures
        spec_equip(items, player, item) matches EquipDecision::Equip { replaced: Some(e) } ==> exists|
            i: int,
            j: int,
        |
            0 <= i < items.len() && 0 <= j < items.len() && #[trigger] items[i].entity == item
                && #[trigger] items[j].entity == e && items[j].parent == player && items[j].kind
                == items[i].kind && e != item,
        spec_equip(items, player, item) matches EquipDecision::Equip { replaced: None } ==> exists|
            i: int,
        |
            0 <= i < items.len() && #[trigger] items[i].entity == item && forall|j: int|
                0 <= j < items.len() ==> !(items[j].parent == player && items[j].kind
                    == items[i].kind && items[j].entity != item),
        spec_equip(items, player, item) is NotEquipment ==> forall|i: int|
            0 <= i < items.len() ==> #[trigger] items[i].entity != item,
{
    lemma_kind_of_first_match(items, item);
    if let Some(k) = kind_of(items, item) {
        lemma_worn_of_kind_is_worn(items, player, k, item);
    }
}

/// What equipping an item does.
#[derive(Clone, Copy, Debug, PartialEq, Eq, Structural)]
pub enum EquipDecision {
    /// The item is not an equipment: nothing happens.
    NotEquipment,
    /// The item leaves the inventory and is attached to the player; the
    /// equipment of the same kind that the player wore, if any, goes to
    /// the inventory.
    Equip { replaced: Option<u64> },
}

/// The decision for equipping `item` on `player`.
pub open spec fn spec_equip(items: Seq<EquipmentItem>, player: u64, item: u64) -> EquipDecision {
    match kind_of(items, item) {
        None => EquipDecision::NotEquipment,
        Some(kind) => EquipDecision::Equip { replaced: worn_of_kind(items, player, kind, item) },
    }
}

/// Equip an equipment: `items` are the equipments attached to an entity.
/// The player swaps the equipment it wears of the same kind, if any, with
/// `item`.
pub fn equip_equipment(items: &Vec<EquipmentItem>, player: u64, item: u64) -> (decision: EquipDecision)
    ensures
        decision == spec_equip(items@, player, item),
        decision matches EquipDecision::Equip { replaced: Some(e) } ==> exists|i: int, j: int|
            0 <= i < items@.len() && 0 <= j < items@.len() && #[trigger] items@[i].entity == item
                && #[trigger] items@[j].entity == e && items@[j].parent == player
                && items@[j].kind == items@[i].kind && e != item,
{
    proof {
        lemma_equip_replaces_worn_equipment(items@, player, item);
    }
    let mut kind: Option<Equipment> = None;
    let mut i: usize = 0;
    proof {
        assert(items@.skip(0) =~= items@);
    }
    while i < items.len()
        invariant
            0 <= i <= items.len(),
            kind_of(items@, item) == match kind {
                Some(k) => Some(k),
                None => kind_of(items@.skip(i as int), item),
            },
        decreases items.len() - i,
    {
        proof {
            assert(items@.skip(i as int).drop_first() =~= items@.skip(i + 1));
        }
        if kind.is_none() && items[i].entity == item {
            kind = Some(items[i].kind);
        }
        i = i + 1;
    }
    proof {
        assert(items@.skip(items.len() as int) =~= Seq::<EquipmentItem>::empty());
    }
    let kind = match kind {
        Some(k) => k,
        None => {
            return EquipDecision::NotEquipment;
        },
    };
    let mut replaced: Option<u64> = None;
    let mut j: usize = 0;
    proof {
        assert(items@.skip(0) =~= items@);
    }
    while j < items.len()
        invariant
            0 <= j <= items.len(),
            worn_of_kind(items@, player, kind, item) == match replaced {
                Some(e) => Some(e),
                None => worn_of_kind(items@.skip(j as int), player, kind, item),
            },
        decreases items.len() - j,
    {
        proof {
            assert(items@.skip(j as int).drop_first() =~= items@.skip(j + 1));
        }
        let it = items[j];
        if replaced.is_none() && it.parent == player && it.kind == kind && it.entity != item {
            replaced = Some(it.entity);
        }
        j = j + 1;
    }
    proof {
        assert(items@.skip(items.len() as int) =~= Seq::<EquipmentItem>::empty());
    }
    EquipDecision::Equip { replaced }
}

/// Where a dropped item was attached.
#[derive(Clone, Copy, Debug, PartialEq, Eq, Structural)]
pub enum DropChange {
    /// The player wore it: the player's equipment changes.
    Player,
    /// It was in the inventory: it leaves the inventory.
    Inventory,
    /// It was attached elsewhere.
    Other,
}

/// Drop an item: where the item was attached, when it had a parent;
/// an item without a parent is left alone.
pub fn update_player_on_drop_item(parent: Option<u64>, player: u64, inventory: u64) -> (change:
    Option<DropChange>)
    ensures
        change == match parent {
            None => None,
            Some(p) => Some(
                if p == player {
                    DropChange::Player
                } else if p == inventory {
                    DropChange::Inventory
                } else {
                    DropChange::Other
                },
            ),
        },
{
    match parent {
        None => None,
        Some(p) => {
            if p == player {
                Some(DropChange::Player)
            } else if p == inventory {
                Some(DropChange::Inventory)
            } else {
                Some(DropChange::Other)
            }
        },
    }
}

} // verus!
