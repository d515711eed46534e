use craftcore::craft::{craft, CraftError};
use craftcore::inventory::Inventory;
use craftcore::item::{Item, ItemBundle, ItemKind, ItemStack};
use craftcore::layout::{layout_matches, Layout};
use craftcore::store::ItemStore;
use craftcore::workbench::{Workbench, WorkbenchTag};

fn item(name: &str) -> Item {
    Item { name: name.to_string(), kind: ItemKind::Primitive, level: 1 }
}

fn bundle(name: &str, stack: u8) -> ItemBundle {
    ItemBundle { item: item(name), stack: ItemStack(stack) }
}

fn total_units(store: &ItemStore, inventory: &Inventory) -> u64 {
    let mut sum: u64 = 0;
    for slot in &inventory.slots {
        if let Some(e) = slot {
            if let Some(b) = store.get(*e) {
                sum += b.stack.0 as u64;
            }
        }
    }
    sum
}

#[test]
fn stacking_idempotence() {
    let mut store = ItemStore::new();
    let mut inventory = Inventory::new();
    inventory.add_combine(&mut store, &Layout(vec![bundle("Wood", 3)]));
    inventory.add_combine(&mut store, &Layout(vec![bundle("Wood", 2)]));
    assert_eq!(inventory.slots.len(), 1);
    let e = inventory.slots[0].expect("slot occupied");
    let b = store.get(e).expect("entity live");
    assert_eq!(b.item, item("Wood"));
    assert_eq!(b.stack.0, 5);
}

#[test]
fn different_kinds_occupy_separate_slots() {
    let mut store = ItemStore::new();
    let mut inventory = Inventory::new();
    inventory.add_combine(&mut store, &Layout(vec![bundle("Wood", 1), bundle("Stone", 1)]));
    assert_eq!(inventory.slots.len(), 2);
}

#[test]
fn exact_match_crafting_succeeds() {
    let mut store = ItemStore::new();
    let mut inventory = Inventory::new();
    inventory.add_combine(&mut store, &Layout(vec![bundle("Wood", 1)]));

    let mut bench = Workbench::new("Test".to_string(), WorkbenchTag::Classical);
    assert!(bench.add_recipe(Layout(vec![bundle("Wood", 1)]), Layout(vec![bundle("Plank", 2)])));

    let produced = craft(&bench, &mut store, &mut inventory, &Layout(vec![bundle("Wood", 1)]))
        .expect("craft succeeds");
    assert_eq!(produced.0.len(), 1);
    assert_eq!(produced.0[0].item, item("Plank"));
    assert_eq!(produced.0[0].stack.0, 2);

    // The wood stack was consumed in full: its slot is a hole, and one
    // slot of two planks was appended.
    assert_eq!(inventory.slots.len(), 2);
    assert!(inventory.slots[0].is_none());
    let e = inventory.slots[1].expect("plank slot occupied");
    let b = store.get(e).expect("entity live");
    assert_eq!(b.item, item("Plank"));
    assert_eq!(b.stack.0, 2);
}

#[test]
fn exact_match_crafting_fails_on_empty_stack() {
    let mut store = ItemStore::new();
    let mut inventory = Inventory::new();
    let e = store.spawn(bundle("Wood", 0));
    inventory.add_single(e);

    let mut bench = Workbench::new("Test".to_string(), WorkbenchTag::Classical);
    assert!(bench.add_recipe(Layout(vec![bundle("Wood", 1)]), Layout(vec![bundle("Plank", 2)])));

    let r = craft(&bench, &mut store, &mut inventory, &Layout(vec![bundle("Wood", 1)]));
    assert!(matches!(r, Err(CraftError::NotFound)));
    assert_eq!(inventory.slots.len(), 1);
    let b = store.get(e).expect("entity live");
    assert_eq!(b.item, item("Wood"));
    assert_eq!(b.stack.0, 0);
}

#[test]
fn no_partial_consumption_on_recipe_miss() {
    let mut store = ItemStore::new();
    let mut inventory = Inventory::new();
    inventory.add_combine(&mut store, &Layout(vec![bundle("Wood", 1)]));

    // Feasibility would pass, but the bench holds no recipe for the
    // layout: the lookup runs before consumption, so nothing is lost.
    let bench = Workbench::new("Test".to_string(), WorkbenchTag::Classical);
    assert!(inventory.search_satisfying(&store, &Layout(vec![bundle("Wood", 1)])).is_some());

    let before = total_units(&store, &inventory);
    let r = craft(&bench, &mut store, &mut inventory, &Layout(vec![bundle("Wood", 1)]));
    assert!(matches!(r, Err(CraftError::RecipeUnavailable)));
    assert_eq!(total_units(&store, &inventory), before);
    let e = inventory.slots[0].expect("slot still occupied");
    assert_eq!(store.get(e).expect("entity live").stack.0, 1);
}

#[test]
fn take_search_round_trip() {
    let mut store = ItemStore::new();
    let mut left = Inventory::new();
    left.add_combine(&mut store, &Layout(vec![bundle("Wood", 1), bundle("Stone", 2)]));
    let mut right = Inventory { slots: left.slots.clone() };

    let wanted = item("Stone");
    let idx = left
        .search_condition(&store, |b: &ItemBundle, _e| b.item == wanted)
        .expect("stone found");
    let taken = left.take(idx).expect("slot occupied");

    let direct = right.take_linear(taken).expect("same entity found linearly");
    assert_eq!(taken, direct);
    assert_eq!(left.slots, right.slots);
}

#[test]
fn layout_canonicalization() {
    let a = Layout(vec![bundle("Wood", 1), bundle("Stone", 2)]);
    let b = Layout(vec![bundle("Stone", 2), bundle("Wood", 1)]);
    let c = Layout(vec![bundle("Stone", 1), bundle("Wood", 2)]);
    assert!(layout_matches(&a, &b));
    assert!(!layout_matches(&a, &c));

    let mut bench = Workbench::new("Test".to_string(), WorkbenchTag::Second);
    assert!(bench.add_recipe(a, Layout(vec![bundle("Plank", 1)])));
    // The same multiset in another order is the same key: both are
    // found, and a duplicate registration under the reordered key is
    // refused.
    let out = bench.craft(&b).expect("reordered layout hits the recipe");
    assert_eq!(out.0[0].item, item("Plank"));
    assert!(!bench.add_recipe(
        Layout(vec![bundle("Stone", 2), bundle("Wood", 1)]),
        Layout(vec![bundle("Axe", 1)])
    ));
    assert!(bench.craft(&c).is_none());
}

#[test]
fn quantity_conservation() {
    let mut store = ItemStore::new();
    let mut inventory = Inventory::new();
    inventory.add_combine(
        &mut store,
        &Layout(vec![bundle("Wood", 5), bundle("Stone", 4), bundle("Fiber", 7)]),
    );

    let mut bench = Workbench::new("Test".to_string(), WorkbenchTag::Classical);
    assert!(bench.add_recipe(
        Layout(vec![bundle("Wood", 2), bundle("Stone", 4)]),
        Layout(vec![bundle("Axe", 1)]),
    ));

    let before = total_units(&store, &inventory);
    craft(
        &bench,
        &mut store,
        &mut inventory,
        &Layout(vec![bundle("Wood", 2), bundle("Stone", 4)]),
    )
    .expect("craft succeeds");
    // Consumed 2 + 4 = 6 units, produced 1: the total moves by exactly
    // 1 - 6 = -5.
    assert_eq!(total_units(&store, &inventory), before - 5);
    // The partial wood stack stayed in place; the stone slot is a hole.
    let wood = inventory.slots[0].expect("wood slot kept");
    assert_eq!(store.get(wood).expect("wood live").stack.0, 3);
    assert!(inventory.slots[1].is_none());
}

#[test]
fn add_recipe_rejects_duplicate_key() {
    let mut bench = Workbench::new("Test".to_string(), WorkbenchTag::Classical);
    assert!(bench.add_recipe(Layout(vec![bundle("Wood", 1)]), Layout(vec![bundle("Plank", 2)])));
    assert!(!bench.add_recipe(Layout(vec![bundle("Wood", 1)]), Layout(vec![bundle("Plank", 4)])));
    assert_eq!(bench.recipes.entries.len(), 1);
}

#[test]
fn craft_output_is_merged_into_existing_stack() {
    let mut store = ItemStore::new();
    let mut inventory = Inventory::new();
    inventory.add_combine(&mut store, &Layout(vec![bundle("Wood", 1), bundle("Plank", 1)]));

    let mut bench = Workbench::new("Test".to_string(), WorkbenchTag::Classical);
    assert!(bench.add_recipe(Layout(vec![bundle("Wood", 1)]), Layout(vec![bundle("Plank", 2)])));
    craft(&bench, &mut store, &mut inventory, &Layout(vec![bundle("Wood", 1)]))
        .expect("craft succeeds");

    // The produced planks merged into the existing plank stack instead
    // of opening a second slot.
    assert_eq!(inventory.slots.len(), 2);
    assert!(inventory.slots[0].is_none());
    let planks = inventory.slots[1].expect("plank slot occupied");
    assert_eq!(store.get(planks).expect("planks live").stack.0, 3);
}

#[test]
fn take_satisfying_layout_clears_chosen_slots() {
    let mut store = ItemStore::new();
    let mut inventory = Inventory::new();
    inventory.add_combine(&mut store, &Layout(vec![bundle("Wood", 3), bundle("Stone", 1)]));
    let wood = inventory.slots[0].expect("wood slot");

    let taken = inventory
        .take_satisfying_layout(&store, &Layout(vec![bundle("Wood", 2)]))
        .expect("feasible");
    assert_eq!(taken, vec![wood]);
    assert!(inventory.slots[0].is_none());
    assert!(inventory.slots[1].is_some());
}

#[test]
fn take_satisfying_layout_refuses_infeasible() {
    let mut store = ItemStore::new();
    let mut inventory = Inventory::new();
    inventory.add_combine(&mut store, &Layout(vec![bundle("Wood", 1)]));
    let r = inventory.take_satisfying_layout(&store, &Layout(vec![bundle("Wood", 2)]));
    assert!(r.is_none());
    assert!(inventory.slots[0].is_some());
}

#[test]
fn search_satisfying_needs_distinct_slots() {
    let mut store = ItemStore::new();
    let mut inventory = Inventory::new();
    inventory.add_combine(&mut store, &Layout(vec![bundle("Wood", 5)]));
    // Two ingredients of the same kind cannot both be served by the one
    // wood slot: each ingredient needs a distinct slot.
    let layout = Layout(vec![bundle("Wood", 2), bundle("Wood", 2)]);
    assert!(inventory.search_satisfying(&store, &layout).is_none());

    inventory.add_combine(&mut store, &Layout(vec![bundle("Wood", 200)]));
    // Still one slot: the merge accumulated the count instead.
    assert!(inventory.search_satisfying(&store, &layout).is_none());
    let e = store.spawn(bundle("Wood", 2));
    inventory.add_single(e);
    assert!(inventory.search_satisfying(&store, &layout).is_some());
}

#[test]
fn add_without_merging_opens_new_slots() {
    let mut store = ItemStore::new();
    let mut inventory = Inventory::new();
    inventory.add(&mut store, &Layout(vec![bundle("Wood", 1)]));
    inventory.add(&mut store, &Layout(vec![bundle("Wood", 1)]));
    // `add` appends slots as they come; only `add_combine` merges.
    assert_eq!(inventory.slots.len(), 2);
    assert!(inventory.slots[0].is_some() && inventory.slots[1].is_some());
}

#[test]
fn bundle_as_tuple() {
    let b = bundle("Wood", 3);
    let (i, s) = b.as_tuple();
    assert_eq!(*i, item("Wood"));
    assert_eq!(s.0, 3);
}

#[test]
fn layout_helpers() {
    let one: Layout<u8> = Layout(vec![7]);
    let many: Layout<u8> = Layout(vec![1, 2, 3]);
    let empty: Layout<u8> = Layout(vec![]);
    assert!(one.is_one() && !one.is_many());
    assert!(!many.is_one() && many.is_many());
    assert!(!empty.is_one() && !empty.is_many());
    assert_eq!(one.get_one(), Some(&7));
    assert_eq!(many.get_one(), None);
    assert_eq!(one.get_many(), None);
    assert_eq!(many.get_many(), Some(&vec![1, 2, 3]));
    assert_eq!(empty.get().len(), 0);
    assert_eq!(many.get(), &vec![1, 2, 3]);
}

#[test]
fn default_values() {
    let d = Item::default();
    assert_eq!(d.name, "TestItem");
    assert_eq!(d.kind, ItemKind::Primitive);
    assert_eq!(d.level, 1);
    assert_eq!(ItemStack::default().0, 1);
    let m = craftcore::item::ItemModifiers::default();
    assert_eq!((m.amount, m.level), (1, 1));
    let data = craftcore::item::ItemData::default();
    assert_eq!(data.name, "TestItem");
    assert_eq!(craftcore::chest::MoveStack::default().0, 1);
    assert_eq!(craftcore::enemy::Health::default(), craftcore::enemy::Health(1));
    let w = craftcore::ui::WindowContext::default();
    assert!(w.workbench_window && w.inventory_window && w.enchantment_window && w.add_item_window);
    assert_eq!(ItemKind::default(), ItemKind::Primitive);
}

#[test]
fn item_identity_includes_level() {
    let low = Item { name: "Sword".to_string(), kind: ItemKind::Primitive, level: 1 };
    let high = Item { name: "Sword".to_string(), kind: ItemKind::Primitive, level: 2 };
    assert_ne!(low, high);
    let mut store = ItemStore::new();
    let mut inventory = Inventory::new();
    inventory.add_combine(
        &mut store,
        &Layout(vec![
            ItemBundle { item: low, stack: ItemStack(1) },
            ItemBundle { item: high, stack: ItemStack(1) },
        ]),
    );
    // Structurally different items never merge.
    assert_eq!(inventory.slots.len(), 2);
}

#[test]
fn saturating_merge_clamps_at_counter_ceiling() {
    let mut store = ItemStore::new();
    let mut inventory = Inventory::new();
    inventory.add_combine(&mut store, &Layout(vec![bundle("Wood", 200)]));
    inventory.add_combine(&mut store, &Layout(vec![bundle("Wood", 100)]));
    let e = inventory.slots[0].expect("slot occupied");
    assert_eq!(store.get(e).expect("live").stack.0, 255);
    assert_eq!(inventory.slots.len(), 1);
}

#[test]
fn inventory_join_and_add_vec() {
    let mut store = ItemStore::new();
    let mut a = Inventory::new();
    let mut b = Inventory::new();
    a.add_combine(&mut store, &Layout(vec![bundle("Wood", 1)]));
    b.add_combine(&mut store, &Layout(vec![bundle("Stone", 1)]));
    let stone = b.slots[0].expect("stone slot");
    a.join(&mut b);
    assert_eq!(a.slots.len(), 2);
    assert_eq!(b.slots.len(), 0);
    assert_eq!(a.slots[1], Some(stone));

    let fresh = store.spawn(bundle("Fiber", 1));
    let fresh2 = store.spawn(bundle("Clay", 1));
    a.add_vec(vec![fresh, fresh2]);
    assert_eq!(a.slots.len(), 4);
    assert_eq!(a.slots[3], Some(fresh2));
    assert_eq!(a.search(fresh), Some(2));
    assert_eq!(a.search_item(&store, &item("Clay")), Some(3));
}

#[test]
fn holes_are_kept_and_new_items_appended() {
    let mut store = ItemStore::new();
    let mut inventory = Inventory::new();
    inventory.add_combine(&mut store, &Layout(vec![bundle("Wood", 1), bundle("Stone", 1)]));
    let wood = inventory.slots[0].expect("wood slot");
    inventory.take_linear(wood).expect("wood taken");
    assert_eq!(inventory.slots[0], None);

    // A different item-kind does not fill the hole: it opens a new slot
    // at the end.
    inventory.add_combine(&mut store, &Layout(vec![bundle("Fiber", 1)]));
    assert_eq!(inventory.slots.len(), 3);
    assert!(inventory.slots[0].is_none());
    assert!(inventory.slots[2].is_some());
}

#[test]
fn searches_on_empty_inventory_find_nothing() {
    let store = ItemStore::new();
    let inventory = Inventory::new();
    assert!(inventory.search_item(&store, &item("Wood")).is_none());
    assert!(inventory.search_condition(&store, |_b: &ItemBundle, _e| true).is_none());
    assert!(inventory.search_satisfying(&store, &Layout(vec![bundle("Wood", 1)])).is_none());
    let mut inventory = inventory;
    let mut store = store;
    assert!(inventory.take_linear_item(&store, &item("Wood")).is_none());
    assert!(inventory.take(0).is_none());
    assert!(craftcore::protocol::apply_item_event(
        &mut store,
        &mut inventory,
        &craftcore::protocol::ItemEvent {
            kind: craftcore::protocol::ItemEventKind::Remove,
            inventory: None,
            item: bundle("Wood", 1),
        },
    ) == false);
}

#[test]
fn empty_layout_is_a_valid_recipe_key() {
    let mut store = ItemStore::new();
    let mut inventory = Inventory::new();
    let mut bench = Workbench::new("Test".to_string(), WorkbenchTag::Classical);
    assert!(bench.add_recipe(Layout(vec![]), Layout(vec![bundle("Pebble", 1)])));
    // An empty input is feasible against any inventory and consumes
    // nothing.
    let produced =
        craft(&bench, &mut store, &mut inventory, &Layout(vec![])).expect("craft succeeds");
    assert_eq!(produced.0.len(), 1);
    assert_eq!(inventory.slots.len(), 1);
}

#[test]
fn take_linear_item_removes_first_match() {
    let mut store = ItemStore::new();
    let mut inventory = Inventory::new();
    inventory.add_combine(&mut store, &Layout(vec![bundle("Wood", 1), bundle("Stone", 1)]));
    let wood = inventory.slots[0].expect("wood slot");
    let got = inventory.take_linear_item(&store, &item("Wood")).expect("wood taken");
    assert_eq!(got, wood);
    assert!(inventory.slots[0].is_none());
    assert!(inventory.take_linear_item(&store, &item("Wood")).is_none());
}
