//! The networked item mutation protocol: `Add`/`Remove` events carrying
//! an item and stack, applied by the authoritative peer to the owning
//! inventory. The external replication layer delivers events in the
//! order they were sent; the final stack counts depend on that order.
//! Entity references inside an event live in the sender's identifier
//! space and are remapped before the event is acted on.

use vstd::prelude::*;

use crate::inventory::{
    first_from, inv_wf, spec_add_combine_one, spec_remove_combine, Inventory,
};
use crate::item::{BundleView, ItemBundle};
use crate::layout::Layout;
use crate::store::{EntityId, ItemStore};

verus! {

/// What an [`ItemEvent`] asks of the authority.
#[derive(Clone, Copy, PartialEq, Eq, Structural, Debug)]
pub enum ItemEventKind {
    Add,
    Remove,
}

/// Mathematical value of an [`ItemEvent`].
pub struct ItemEventView {
    pub kind: ItemEventKind,
    pub inventory: Option<EntityId>,
    pub item: BundleView,
}

/// Network message: add or remove one item stack. The `inventory`
/// reference exists for entity-remapping bookkeeping; the authority
/// locates the owning inventory by the sender's identity, not by
/// trusting this field.
#[derive(Debug)]
pub struct ItemEvent {
    pub kind: ItemEventKind,
    pub inventory: Option<EntityId>,
    pub item: ItemBundle,
}

impl View for ItemEvent {
    type V = ItemEventView;

    open spec fn view(&self) -> ItemEventView {
        ItemEventView { kind: self.kind, inventory: self.inventory, item: self.item@ }
    }
}

/// A translation between two peers' entity-identifier spaces: explicit
/// pairs, identity for everything unlisted.
#[derive(Debug)]
pub struct EntityMap {
    pub pairs: Vec<(EntityId, EntityId)>,
}

/// The pair predicate used by the mapping: pair `i` lists `e`.
pub open spec fn pair_maps(pairs: Seq<(EntityId, EntityId)>, e: EntityId) -> spec_fn(int) -> bool {
    |i: int| pairs[i].0 == e
}

/// Where `e` is sent by the mapping: the image of the first pair listing
/// it, or `e` itself.
pub open spec fn spec_map_entity(pairs: Seq<(EntityId, EntityId)>, e: EntityId) -> EntityId {
    match first_from(pairs.len() as int, pair_maps(pairs, e), 0) {
        Some(i) => pairs[i].1,
        None => e,
    }
}

impl EntityMap {
    pub fn map_entity(&self, e: EntityId) -> (r: EntityId)
        ensures
            r == spec_map_entity(self.pairs@, e),
    {
        let ghost pred = pair_maps(self.pairs@, e);
        proof {
            crate::inventory::lemma_first_from(self.pairs@.len() as int, pred, 0);
        }
        let mut i: usize = 0;
        while i < self.pairs.len()
            invariant
                i <= self.pairs@.len(),
                pred == pair_maps(self.pairs@, e),
                forall|j: int| 0 <= j < i ==> !(#[trigger] pred(j)),
            decreases self.pairs@.len() - i,
        {
            if self.pairs[i].0.0 == e.0 {
                proof {
                    assert(pred(i as int));
                    crate::inventory::lemma_first_from(self.pairs@.len() as int, pred, 0);
                    match first_from(self.pairs@.len() as int, pred, 0) {
                        Some(k) => {
                            if k < i as int {
                                assert(!pred(k));
                            }
                        },
                        None => {
                            assert(!pred(i as int));
                        },
                    }
                }
                return self.pairs[i].1;
            }
            proof {
                assert(!pred(i as int));
            }
            i = i + 1;
        }
        e
    }
}

impl ItemEvent {
    /// Remap the entity references this event carries into the local
    /// identifier space.
    pub fn map_entities(&mut self, map: &EntityMap)
        ensures
            final(self).kind == old(self).kind,
            final(self).item == old(self).item,
            final(self).inventory == match old(self).inventory {
                Some(e) => Some(spec_map_entity(map.pairs@, e)),
                None => None::<EntityId>,
            },
    {
        match self.inventory {
            Some(e) => {
                self.inventory = Some(map.map_entity(e));
            },
            None => {},
        }
    }
}

impl Inventory {
    /// Remap every occupied slot's entity reference into the local
    /// identifier space.
    pub fn map_entities(&mut self, map: &EntityMap)
        ensures
            final(self)@.len() == old(self)@.len(),
            forall|i: int|
                0 <= i < old(self)@.len() ==> #[trigger] final(self)@[i] == match old(self)@[i] {
                    Some(e) => Some(spec_map_entity(map.pairs@, e)),
                    None => None::<EntityId>,
                },
    {
        let ghost inv0 = self@;
        let mut i: usize = 0;
        while i < self.slots.len()
            invariant
                i <= inv0.len(),
                self@.len() == inv0.len(),
                forall|j: int| i <= j < inv0.len() ==> #[trigger] self@[j] == inv0[j],
                forall|j: int|
                    0 <= j < i ==> #[trigger] self@[j] == match inv0[j] {
                        Some(e) => Some(spec_map_entity(map.pairs@, e)),
                        None => None::<EntityId>,
                    },
            decreases inv0.len() - i,
        {
            match self.slots[i] {
                Some(e) => {
                    self.slots.set(i, Some(map.map_entity(e)));
                },
                None => {},
            }
            i = i + 1;
        }
    }
}

/// Apply one remapped event to the owning inventory, as the authority
/// does on receipt: `Add` merges the carried stack in; `Remove`
/// decrements or clears the first sufficient stack of the same item and
/// reports failure — leaving everything unchanged — when no stack can
/// cover it.
pub fn apply_item_event(
    store: &mut ItemStore,
    inventory: &mut Inventory,
    event: &ItemEvent,
) -> (ok: bool)
    ensures
        match event.kind {
            ItemEventKind::Add => {
                &&& (final(store)@, final(inventory)@) == spec_add_combine_one(
                    old(store)@,
                    old(inventory)@,
                    event@.item,
                )
                &&& ok
            },
            ItemEventKind::Remove => (final(store)@, final(inventory)@, ok)
                == spec_remove_combine(old(store)@, old(inventory)@, event@.item),
        },
        inv_wf(old(store)@, old(inventory)@) ==> inv_wf(final(store)@, final(inventory)@),
{
    match event.kind {
        ItemEventKind::Add => {
            let l = Layout(vec![event.item.duplicate()]);
            proof {
                assert(l@ =~= seq![event.item@]);
            }
            inventory.add_combine(store, &l);
            proof {
                let items = l@;
                assert(items.drop_first() =~= Seq::<BundleView>::empty());
                assert(crate::inventory::spec_add_combine(old(store)@, old(inventory)@, items)
                    == spec_add_combine_one(old(store)@, old(inventory)@, event@.item)) by {
                    let (s1, i1) = spec_add_combine_one(old(store)@, old(inventory)@, items.first());
                    assert(crate::inventory::spec_add_combine(s1, i1, items.drop_first()) == (
                        s1,
                        i1,
                    ));
                }
            }
            true
        },
        ItemEventKind::Remove => inventory.remove_combine(store, &event.item),
    }
}

} // verus!
