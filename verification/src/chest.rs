//! Containers: a chest is an entity with an inventory of its own, and
//! the player moves part of a stack between the two inventories through
//! the operation here. The window that drives it is engine UI and stays
//! outside the core.

use vstd::prelude::*;

use crate::inventory::{
    first_from, slot_holds, spec_add_combine_one, Inventory,
};
use crate::item::{BundleView, ItemBundle, ItemStack};
use crate::store::{bundle_at, live, EntityId, ItemStore};

verus! {

/// Marker for a container entity.
#[derive(Clone, Copy, PartialEq, Eq, Structural, Debug, Default)]
pub struct Chest;

/// How many items the next move between inventories transfers.
#[derive(Clone, Copy, PartialEq, Eq, Structural, Debug)]
pub struct MoveStack(pub u8);

impl Default for MoveStack {
    fn default() -> (r: Self)
        ensures
            r == MoveStack(1),
    {
        MoveStack(1)
    }
}

/// What moving `amount` items off the stack of `entity` from one
/// inventory into another does: the source stack shrinks by `amount`
/// (its slot clears and the entity dies when nothing is left), and the
/// moved items merge into the destination under the usual stacking
/// policy. The move is refused — nothing changes — when the entity is
/// not alive, not in the source inventory, or holds fewer than `amount`.
pub open spec fn spec_move_stack(
    store: Seq<Option<BundleView>>,
    from: Seq<Option<EntityId>>,
    to: Seq<Option<EntityId>>,
    entity: EntityId,
    amount: u8,
) -> (Seq<Option<BundleView>>, Seq<Option<EntityId>>, Seq<Option<EntityId>>, bool) {
    if !live(store, entity) || first_from(from.len() as int, slot_holds(from, entity), 0) is None
        || bundle_at(store, entity).stack < amount {
        (store, from, to, false)
    } else {
        let b = bundle_at(store, entity);
        let moved = BundleView { item: b.item, stack: amount };
        let i = first_from(from.len() as int, slot_holds(from, entity), 0)->Some_0;
        if b.stack == amount {
            let s1 = store.update(entity.0 as int, None);
            let f1 = from.update(i, None);
            let (s2, t2) = spec_add_combine_one(s1, to, moved);
            (s2, f1, t2, true)
        } else {
            let s1 = store.update(
                entity.0 as int,
                Some(BundleView { item: b.item, stack: (b.stack - amount) as u8 }),
            );
            let (s2, t2) = spec_add_combine_one(s1, to, moved);
            (s2, from, t2, true)
        }
    }
}

/// Move `amount` items of the stack entity `entity` from one inventory
/// into another, merging them at the destination.
pub fn move_stack_between(
    store: &mut ItemStore,
    from: &mut Inventory,
    to: &mut Inventory,
    entity: EntityId,
    amount: u8,
) -> (ok: bool)
    ensures
        (final(store)@, final(from)@, final(to)@, ok) == spec_move_stack(
            old(store)@,
            old(from)@,
            old(to)@,
            entity,
            amount,
        ),
{
    let (item, cur) = match store.get(entity) {
        Some(b) => (b.item.duplicate(), b.stack.0),
        None => {
            return false;
        },
    };
    let slot = match from.search(entity) {
        Some(i) => i,
        None => {
            return false;
        },
    };
    if cur < amount {
        return false;
    }
    proof {
        crate::inventory::lemma_first_from(from@.len() as int, slot_holds(from@, entity), 0);
    }
    if cur == amount {
        from.take(slot);
        store.despawn(entity);
    } else {
        store.decrease_stack(entity, amount);
    }
    let moved = crate::layout::Layout(vec![ItemBundle { item, stack: ItemStack(amount) }]);
    let ghost s1 = store@;
    let ghost t0 = to@;
    to.add_combine(store, &moved);
    proof {
        let items = moved@;
        assert(items =~= seq![BundleView { item: bundle_at(old(store)@, entity).item, stack: amount }]);
        assert(items.drop_first() =~= Seq::<BundleView>::empty());
        assert(crate::inventory::spec_add_combine(s1, t0, items) == spec_add_combine_one(
            s1,
            t0,
            items.first(),
        )) by {
            let (sa, ta) = spec_add_combine_one(s1, t0, items.first());
            assert(crate::inventory::spec_add_combine(sa, ta, items.drop_first()) == (sa, ta));
        }
    }
    true
}

} // verus!
