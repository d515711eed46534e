//! The enchantment extension point: a closed set of modifiers that can
//! be attached to an item and applied to player and item properties
//! exactly once each. An enchantment that touches the world does so
//! through an action value the caller performs; the core never reaches
//! into the engine itself.

use vstd::prelude::*;

use crate::item::ItemProperties;
use crate::store::EntityId;

verus! {

/// Additional modifiers a player carries; an extension point that today
/// holds no data.
#[derive(Clone, Copy, PartialEq, Eq, Structural, Debug, Default)]
pub struct PlayerProperties {}

/// The closed set of enchantments.
#[derive(Clone, Copy, PartialEq, Eq, Structural, Debug)]
pub enum EnchantmentKind {
    /// Marks the wearer's player entity as empowered.
    Power,
}

/// A world-visible effect requested by an enchantment; the surrounding
/// engine performs it.
#[derive(Clone, Copy, PartialEq, Eq, Structural, Debug)]
pub enum WorldAction {
    /// Attach the empowered marker to this player entity.
    TagPower(EntityId),
}

/// What applying `kind` to the player entity asks of the world.
pub open spec fn spec_world_action(kind: EnchantmentKind, player: EntityId) -> WorldAction {
    match kind {
        EnchantmentKind::Power => WorldAction::TagPower(player),
    }
}

/// The world actions owed for the not-yet-applied entries of an
/// enchantment list, in order.
pub open spec fn spec_pending_actions(
    entries: Seq<EnchantmentWithState>,
    player: EntityId,
) -> Seq<WorldAction>
    decreases entries.len(),
{
    if entries.len() == 0 {
        Seq::empty()
    } else {
        let rest = spec_pending_actions(entries.drop_last(), player);
        if entries.last().applied {
            rest
        } else {
            rest.push(spec_world_action(entries.last().kind, player))
        }
    }
}

/// One enchantment on an item, with whether it has been applied yet:
/// the "apply exactly once" invariant lives in this flag, not in
/// call-site discipline.
#[derive(Clone, Copy, PartialEq, Eq, Structural, Debug)]
pub struct EnchantmentWithState {
    pub kind: EnchantmentKind,
    pub applied: bool,
}

/// The enchantments attached to one item.
#[derive(Debug)]
pub struct ItemEnchantments(pub Vec<EnchantmentWithState>);

impl ItemEnchantments {
    pub fn new() -> (r: Self)
        ensures
            r.0@ == Seq::<EnchantmentWithState>::empty(),
    {
        ItemEnchantments(Vec::new())
    }

    /// Attach one more enchantment, not yet applied.
    pub fn add(&mut self, kind: EnchantmentKind)
        ensures
            final(self).0@ == old(self).0@.push(
                EnchantmentWithState { kind, applied: false },
            ),
    {
        self.0.push(EnchantmentWithState { kind, applied: false });
    }

    /// Apply every enchantment not yet applied, in order, and mark it
    /// applied: already-applied entries are passed over and no entry is
    /// ever applied twice. Today's enchantment kinds leave the player
    /// and item properties as they are and act through the returned
    /// world actions, one per newly applied entry.
    pub fn apply_unapplied(
        &mut self,
        player_properties: &mut PlayerProperties,
        item_properties: &mut ItemProperties,
        player: EntityId,
    ) -> (actions: Vec<WorldAction>)
        ensures
            final(self).0@.len() == old(self).0@.len(),
            forall|i: int|
                0 <= i < old(self).0@.len() ==> #[trigger] final(self).0@[i]
                    == (EnchantmentWithState { kind: old(self).0@[i].kind, applied: true }),
            *final(player_properties) == *old(player_properties),
            *final(item_properties) == *old(item_properties),
            actions@ == spec_pending_actions(old(self).0@, player),
    {
        let ghost entries0 = self.0@;
        let mut actions: Vec<WorldAction> = Vec::new();
        let mut i: usize = 0;
        proof {
            assert(entries0.subrange(0, 0) =~= Seq::<EnchantmentWithState>::empty());
        }
        while i < self.0.len()
            invariant
                i <= entries0.len(),
                self.0@.len() == entries0.len(),
                forall|j: int| i <= j < entries0.len() ==> #[trigger] self.0@[j] == entries0[j],
                forall|j: int|
                    0 <= j < i ==> #[trigger] self.0@[j] == (EnchantmentWithState {
                        kind: entries0[j].kind,
                        applied: true,
                    }),
                actions@ == spec_pending_actions(entries0.subrange(0, i as int), player),
            decreases entries0.len() - i,
        {
            let entry = self.0[i];
            if !entry.applied {
                match entry.kind {
                    EnchantmentKind::Power => {
                        actions.push(WorldAction::TagPower(player));
                    },
                }
            }
            self.0.set(i, EnchantmentWithState { kind: entry.kind, applied: true });
            proof {
                assert(entries0.subrange(0, i + 1).drop_last() =~= entries0.subrange(0, i as int));
                assert(entries0.subrange(0, i + 1).last() == entries0[i as int]);
            }
            i = i + 1;
        }
        proof {
            assert(entries0.subrange(0, i as int) =~= entries0);
        }
        actions
    }
}

/// The bench at which enchantments are attached to items.
#[derive(Clone, Copy, PartialEq, Eq, Structural, Debug)]
pub struct EnchantingTable;

impl EnchantingTable {
    /// Attach `kind` to the item, not yet applied.
    pub fn enchant(&self, item_enchantments: &mut ItemEnchantments, kind: EnchantmentKind)
        ensures
            final(item_enchantments).0@ == old(item_enchantments).0@.push(
                EnchantmentWithState { kind, applied: false },
            ),
    {
        item_enchantments.add(kind);
    }
}

/// Attach `kind` at the table and immediately apply whatever the item
/// still owed, the new enchantment included; every entry ends applied
/// and the returned actions are the pending ones, in order.
pub fn enchant(
    enchantment_table: &EnchantingTable,
    player: EntityId,
    player_properties: &mut PlayerProperties,
    item_properties: &mut ItemProperties,
    item_enchantments: &mut ItemEnchantments,
    kind: EnchantmentKind,
) -> (actions: Vec<WorldAction>)
    ensures
        final(item_enchantments).0@.len() == old(item_enchantments).0@.len() + 1,
        forall|i: int|
            0 <= i < old(item_enchantments).0@.len() ==> #[trigger] final(item_enchantments).0@[i]
                == (EnchantmentWithState { kind: old(item_enchantments).0@[i].kind, applied: true }),
        final(item_enchantments).0@.last() == (EnchantmentWithState { kind, applied: true }),
        *final(player_properties) == *old(player_properties),
        *final(item_properties) == *old(item_properties),
        actions@ == spec_pending_actions(
            old(item_enchantments).0@.push(EnchantmentWithState { kind, applied: false }),
            player,
        ),
{
    enchantment_table.enchant(item_enchantments, kind);
    item_enchantments.apply_unapplied(player_properties, item_properties, player)
}

} // verus!
