use craftcore::enchant::{
    enchant, EnchantingTable, EnchantmentKind, EnchantmentWithState, ItemEnchantments,
    PlayerProperties, WorldAction,
};
use craftcore::chest::move_stack_between;
use craftcore::inventory::Inventory;
use craftcore::item::{Item, ItemBundle, ItemKind, ItemProperties, ItemStack};
use craftcore::layout::Layout;
use craftcore::protocol::{apply_item_event, EntityMap, ItemEvent, ItemEventKind};
use craftcore::store::{EntityId, ItemStore};

fn bundle(name: &str, stack: u8) -> ItemBundle {
    ItemBundle {
        item: Item { name: name.to_string(), kind: ItemKind::Primitive, level: 1 },
        stack: ItemStack(stack),
    }
}

fn stack_of(store: &ItemStore, inventory: &Inventory, name: &str) -> Option<u8> {
    let wanted = Item { name: name.to_string(), kind: ItemKind::Primitive, level: 1 };
    let idx = inventory.search_item(store, &wanted)?;
    let e = inventory.slots[idx]?;
    store.get(e).map(|b| b.stack.0)
}

fn add_event(name: &str, stack: u8) -> ItemEvent {
    ItemEvent { kind: ItemEventKind::Add, inventory: None, item: bundle(name, stack) }
}

fn remove_event(name: &str, stack: u8) -> ItemEvent {
    ItemEvent { kind: ItemEventKind::Remove, inventory: None, item: bundle(name, stack) }
}

#[test]
fn add_event_merges_stack() {
    let mut store = ItemStore::new();
    let mut inventory = Inventory::new();
    assert!(apply_item_event(&mut store, &mut inventory, &add_event("Wood", 3)));
    assert!(apply_item_event(&mut store, &mut inventory, &add_event("Wood", 2)));
    assert_eq!(stack_of(&store, &inventory, "Wood"), Some(5));
    assert_eq!(inventory.slots.len(), 1);
}

#[test]
fn remove_event_decrements_and_clears() {
    let mut store = ItemStore::new();
    let mut inventory = Inventory::new();
    assert!(apply_item_event(&mut store, &mut inventory, &add_event("Wood", 5)));
    assert!(apply_item_event(&mut store, &mut inventory, &remove_event("Wood", 2)));
    assert_eq!(stack_of(&store, &inventory, "Wood"), Some(3));
    assert!(apply_item_event(&mut store, &mut inventory, &remove_event("Wood", 3)));
    // The stack reached zero: the slot is a hole and the entity gone.
    assert_eq!(stack_of(&store, &inventory, "Wood"), None);
    assert!(inventory.slots[0].is_none());
}

#[test]
fn remove_event_rejects_insufficient_stack() {
    let mut store = ItemStore::new();
    let mut inventory = Inventory::new();
    assert!(apply_item_event(&mut store, &mut inventory, &add_event("Wood", 1)));
    assert!(!apply_item_event(&mut store, &mut inventory, &remove_event("Wood", 2)));
    assert_eq!(stack_of(&store, &inventory, "Wood"), Some(1));
}

#[test]
fn event_ordering_matters() {
    // In order: Add then Remove cancels out.
    let mut store = ItemStore::new();
    let mut inventory = Inventory::new();
    assert!(apply_item_event(&mut store, &mut inventory, &add_event("Wood", 2)));
    assert!(apply_item_event(&mut store, &mut inventory, &remove_event("Wood", 2)));
    assert_eq!(stack_of(&store, &inventory, "Wood"), None);

    // Reordered: the Remove arrives first, finds nothing to remove and
    // is refused; the Add then lands. The final state diverges, so
    // correct counts depend on the channel's ordering guarantee.
    let mut store2 = ItemStore::new();
    let mut inventory2 = Inventory::new();
    assert!(!apply_item_event(&mut store2, &mut inventory2, &remove_event("Wood", 2)));
    assert!(apply_item_event(&mut store2, &mut inventory2, &add_event("Wood", 2)));
    assert_eq!(stack_of(&store2, &inventory2, "Wood"), Some(2));
}

#[test]
fn entity_map_remaps_event_and_inventory() {
    let map = EntityMap { pairs: vec![(EntityId(7), EntityId(1)), (EntityId(9), EntityId(2))] };
    assert_eq!(map.map_entity(EntityId(7)), EntityId(1));
    assert_eq!(map.map_entity(EntityId(3)), EntityId(3));

    let mut event = ItemEvent {
        kind: ItemEventKind::Add,
        inventory: Some(EntityId(9)),
        item: bundle("Wood", 1),
    };
    event.map_entities(&map);
    assert_eq!(event.inventory, Some(EntityId(2)));

    let mut inventory = Inventory { slots: vec![Some(EntityId(7)), None, Some(EntityId(5))] };
    inventory.map_entities(&map);
    assert_eq!(inventory.slots, vec![Some(EntityId(1)), None, Some(EntityId(5))]);
}

#[test]
fn enchantment_applies_exactly_once() {
    let table = EnchantingTable;
    let player = EntityId(0);
    let mut props = PlayerProperties::default();
    let mut item_props = ItemProperties {};
    let mut enchantments = ItemEnchantments::new();

    let actions = enchant(
        &table,
        player,
        &mut props,
        &mut item_props,
        &mut enchantments,
        EnchantmentKind::Power,
    );
    assert_eq!(actions, vec![WorldAction::TagPower(player)]);
    assert_eq!(
        enchantments.0,
        vec![EnchantmentWithState { kind: EnchantmentKind::Power, applied: true }]
    );

    // A second pass finds nothing left to apply.
    let again = enchantments.apply_unapplied(&mut props, &mut item_props, player);
    assert_eq!(again, vec![]);
}

#[test]
fn move_stack_between_inventories() {
    let mut store = ItemStore::new();
    let mut player = Inventory::new();
    let mut chest = Inventory::new();
    player.add_combine(&mut store, &Layout(vec![bundle("Wood", 5)]));
    let wood = player.slots[0].expect("wood slot");

    assert!(move_stack_between(&mut store, &mut player, &mut chest, wood, 2));
    assert_eq!(stack_of(&store, &player, "Wood"), Some(3));
    assert_eq!(stack_of(&store, &chest, "Wood"), Some(2));

    // Too much is refused outright.
    assert!(!move_stack_between(&mut store, &mut player, &mut chest, wood, 4));
    assert_eq!(stack_of(&store, &player, "Wood"), Some(3));

    // Moving the rest clears the source slot and destroys its entity.
    assert!(move_stack_between(&mut store, &mut player, &mut chest, wood, 3));
    assert_eq!(stack_of(&store, &player, "Wood"), None);
    assert!(player.slots[0].is_none());
    assert_eq!(stack_of(&store, &chest, "Wood"), Some(5));
}

#[test]
fn window_name_round_trip() {
    let name = craftcore::ui::WindowName::new("AddItemWindow");
    assert_eq!(name.get(), "AddItemWindow");
}
