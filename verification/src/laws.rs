//! The library's cross-operation guarantees, proved over the same
//! mathematical models the operations' own contracts use.

use vstd::prelude::*;

use crate::inventory::{
    first_from, inv_wf, lemma_first_from, slot_has_item, slot_holds, slot_removable,
    spec_add_combine_one, spec_remove_combine, spec_take, spec_take_linear,
};
use crate::item::{same_item, BundleView};
use crate::store::{bundle_at, live, EntityId};

verus! {

/// After pushing one more entity onto the store, the slots of a
/// well-formed inventory still reference what they referenced: no old
/// slot matches an item that none matched before.
proof fn lemma_no_item_slot_after_push(
    store: Seq<Option<BundleView>>,
    inv: Seq<Option<EntityId>>,
    nb: BundleView,
    item: crate::item::ItemView,
    j: int,
)
    requires
        inv_wf(store, inv),
        0 <= j < inv.len(),
        !slot_has_item(store, inv, item)(j),
    ensures
        !slot_has_item(store.push(Some(nb)), inv, item)(j),
        !slot_removable(store.push(Some(nb)), inv, BundleView { item, stack: nb.stack })(j),
{
    if inv[j] is Some {
        let e = inv[j]->Some_0;
        assert(live(store, e));
        assert(store.push(Some(nb))[e.0 as int] == store[e.0 as int]);
    }
}

/// Stacking idempotence: merging an item-kind into an inventory that
/// holds none of it, twice over, yields exactly one slot for it — the
/// second merge finds the first one's slot and raises its count to the
/// sum, appending nothing.
pub proof fn lemma_stacking_idempotence(
    store: Seq<Option<BundleView>>,
    inv: Seq<Option<EntityId>>,
    b: BundleView,
    c: BundleView,
)
    requires
        inv_wf(store, inv),
        store.len() < u64::MAX,
        same_item(b.item, c.item),
        first_from(inv.len() as int, slot_has_item(store, inv, b.item), 0) is None,
        b.stack + c.stack <= u8::MAX,
    ensures
        ({
            let e = EntityId(store.len() as u64);
            let (s1, i1) = spec_add_combine_one(store, inv, b);
            let (s2, i2) = spec_add_combine_one(s1, i1, c);
            &&& i1 == inv.push(Some(e))
            &&& i2 == i1
            &&& s2 == store.push(Some(b)).update(
                store.len() as int,
                Some(BundleView { item: b.item, stack: (b.stack + c.stack) as u8 }),
            )
            &&& bundle_at(s2, e) == (BundleView {
                item: b.item,
                stack: (b.stack + c.stack) as u8,
            })
        }),
{
    let e = EntityId(store.len() as u64);
    let s1 = store.push(Some(b));
    let i1 = inv.push(Some(e));
    assert(spec_add_combine_one(store, inv, b) == (s1, i1));
    let p1 = slot_has_item(store, inv, b.item);
    let p2 = slot_has_item(s1, i1, c.item);
    lemma_first_from(inv.len() as int, p1, 0);
    lemma_first_from(i1.len() as int, p2, 0);
    assert(e.0 as int == store.len() as int);
    assert(p2(inv.len() as int));
    match first_from(i1.len() as int, p2, 0) {
        Some(k) => {
            if k < inv.len() as int {
                assert(!p1(k));
                lemma_no_item_slot_after_push(store, inv, b, b.item, k);
                assert(i1[k] == inv[k]);
                assert(!p2(k));
            }
            assert(k == inv.len() as int);
            assert(i1[k]->Some_0 == e);
            assert(bundle_at(s1, e) == b);
            assert(spec_add_combine_one(s1, i1, c) == (
                s1.update(e.0 as int, Some(BundleView { item: b.item, stack: (b.stack + c.stack) as u8 })),
                i1,
            ));
        },
        None => {
            assert(!p2(inv.len() as int));
        },
    }
}

/// Take/search round trip: when a search finds slot `i`, taking slot
/// `i` hands out that slot's entity, and taking that entity linearly
/// (the first slot holding it) removes the same slot and yields the
/// same entity — a well-formed inventory references each entity once.
pub proof fn lemma_take_search_round_trip(
    store: Seq<Option<BundleView>>,
    inv: Seq<Option<EntityId>>,
    pred: spec_fn(int) -> bool,
)
    requires
        inv_wf(store, inv),
        forall|i: int| #[trigger] pred(i) ==> 0 <= i < inv.len() && inv[i] is Some,
        first_from(inv.len() as int, pred, 0) is Some,
    ensures
        ({
            let i = first_from(inv.len() as int, pred, 0)->Some_0;
            let e = inv[i]->Some_0;
            &&& spec_take(inv, i) == (inv.update(i, None), Some(e))
            &&& spec_take_linear(inv, e) == spec_take(inv, i)
        }),
{
    lemma_first_from(inv.len() as int, pred, 0);
    let i = first_from(inv.len() as int, pred, 0)->Some_0;
    let e = inv[i]->Some_0;
    let ph = slot_holds(inv, e);
    lemma_first_from(inv.len() as int, ph, 0);
    assert(ph(i));
    match first_from(inv.len() as int, ph, 0) {
        Some(k) => {
            if k < i {
                assert(inv[k] == Some(e));
                assert(inv[k]->Some_0 == inv[i]->Some_0);
                assert(false);
            }
            if k > i {
                assert(!ph(i));
                assert(false);
            }
        },
        None => {
            assert(!ph(i));
            assert(false);
        },
    }
}

/// Applying `Add` of a bundle and then `Remove` of the same bundle, on
/// an inventory holding none of that item, undoes the addition: the
/// removal succeeds and every stack count is as before, with one spent
/// identifier and one hole left behind.
pub proof fn lemma_add_then_remove_round_trip(
    store: Seq<Option<BundleView>>,
    inv: Seq<Option<EntityId>>,
    b: BundleView,
)
    requires
        inv_wf(store, inv),
        store.len() < u64::MAX,
        first_from(inv.len() as int, slot_has_item(store, inv, b.item), 0) is None,
    ensures
        ({
            let (s1, i1) = spec_add_combine_one(store, inv, b);
            let (s2, i2, ok) = spec_remove_combine(s1, i1, b);
            &&& ok
            &&& s2 == store.push(None)
            &&& i2 == inv.push(None)
        }),
{
    let e = EntityId(store.len() as u64);
    let s1 = store.push(Some(b));
    let i1 = inv.push(Some(e));
    lemma_first_from(inv.len() as int, slot_has_item(store, inv, b.item), 0);
    assert(spec_add_combine_one(store, inv, b) == (s1, i1));
    let pr = slot_removable(s1, i1, b);
    lemma_first_from(i1.len() as int, pr, 0);
    assert(e.0 as int == store.len() as int);
    assert(bundle_at(s1, e) == b);
    assert(pr(inv.len() as int));
    match first_from(i1.len() as int, pr, 0) {
        Some(k) => {
            if k < inv.len() as int {
                assert(!slot_has_item(store, inv, b.item)(k));
                lemma_no_item_slot_after_push(store, inv, b, b.item, k);
                assert(i1[k] == inv[k]);
                assert(!pr(k));
            }
            assert(k == inv.len() as int);
            assert(spec_remove_combine(s1, i1, b) == (
                s1.update(e.0 as int, None),
                i1.update(k, None),
                true,
            ));
            assert(s1.update(e.0 as int, None) =~= store.push(None));
            assert(i1.update(inv.len() as int, None) =~= inv.push(None));
        },
        None => {
            assert(!pr(inv.len() as int));
        },
    }
}

/// The other order diverges: `Remove` of an item the inventory does not
/// hold is refused outright and changes nothing, so a reordered
/// `Remove`/`Add` pair ends with the item present instead of absent —
/// correct final counts depend on the channel delivering events in
/// order.
pub proof fn lemma_remove_before_add_fails(
    store: Seq<Option<BundleView>>,
    inv: Seq<Option<EntityId>>,
    b: BundleView,
)
    requires
        first_from(inv.len() as int, slot_has_item(store, inv, b.item), 0) is None,
    ensures
        spec_remove_combine(store, inv, b) == (store, inv, false),
{
    let ph = slot_has_item(store, inv, b.item);
    let pr = slot_removable(store, inv, b);
    lemma_first_from(inv.len() as int, ph, 0);
    lemma_first_from(inv.len() as int, pr, 0);
    match first_from(inv.len() as int, pr, 0) {
        Some(k) => {
            assert(pr(k));
            assert(ph(k));
            assert(false);
        },
        None => {},
    }
}

/// Total stack units across an inventory's occupied, live slots.
pub open spec fn spec_total(store: Seq<Option<BundleView>>, inv: Seq<Option<EntityId>>) -> int
    decreases inv.len(),
{
    if inv.len() == 0 {
        0
    } else {
        spec_total(store, inv.drop_last()) + match inv.last() {
            Some(e) => if live(store, e) {
                bundle_at(store, e).stack as int
            } else {
                0
            },
            None => 0,
        }
    }
}

/// Stack units a layout lists from position `j` on.
pub open spec fn sum_stacks_from(items: Seq<BundleView>, j: int) -> int
    decreases items.len() - j,
{
    if j < 0 || j >= items.len() {
        0
    } else {
        items[j].stack + sum_stacks_from(items, j + 1)
    }
}

/// Stack units a layout lists in all.
pub open spec fn sum_stacks(items: Seq<BundleView>) -> int {
    sum_stacks_from(items, 0)
}

/// A store change that every referenced entity cannot see leaves the
/// inventory's total alone.
proof fn lemma_total_congruence(
    store: Seq<Option<BundleView>>,
    store2: Seq<Option<BundleView>>,
    inv: Seq<Option<EntityId>>,
)
    requires
        forall|j: int|
            0 <= j < inv.len() && inv[j] is Some ==> (live(store2, #[trigger] inv[j]->Some_0)
                == live(store, inv[j]->Some_0)) && (live(store, inv[j]->Some_0) ==> bundle_at(
                store2,
                inv[j]->Some_0,
            ) == bundle_at(store, inv[j]->Some_0)),
    ensures
        spec_total(store2, inv) == spec_total(store, inv),
    decreases inv.len(),
{
    if inv.len() > 0 {
        assert(inv[inv.len() - 1] == inv.last());
        assert(forall|j: int| 0 <= j < inv.drop_last().len() ==> inv.drop_last()[j] == inv[j]);
        lemma_total_congruence(store, store2, inv.drop_last());
    }
}

/// Entities referenced by distinct occupied slots.
pub open spec fn refs_distinct(inv: Seq<Option<EntityId>>) -> bool {
    forall|i: int, j: int|
        0 <= i < j < inv.len() && inv[i] is Some && inv[j] is Some ==> inv[i]->Some_0 != (
        #[trigger] inv[j]->Some_0)
}

/// Re-stacking the entity of one slot moves the total by the stack
/// difference: no other slot references that entity.
proof fn lemma_total_update_stack(
    store: Seq<Option<BundleView>>,
    inv: Seq<Option<EntityId>>,
    k: int,
    nb: BundleView,
)
    requires
        refs_distinct(inv),
        0 <= k < inv.len(),
        inv[k] is Some,
        live(store, inv[k]->Some_0),
    ensures
        spec_total(store.update(inv[k]->Some_0.0 as int, Some(nb)), inv) == spec_total(store, inv)
            - bundle_at(store, inv[k]->Some_0).stack + nb.stack,
    decreases inv.len(),
{
    let e = inv[k]->Some_0;
    let store2 = store.update(e.0 as int, Some(nb));
    assert(inv[inv.len() - 1] == inv.last());
    if k == inv.len() - 1 {
        assert(live(store2, e) && bundle_at(store2, e) == nb);
        assert(forall|j: int| 0 <= j < inv.drop_last().len() ==> inv.drop_last()[j] == inv[j]);
        assert forall|j: int|
            0 <= j < inv.drop_last().len() && inv.drop_last()[j] is Some implies (live(
            store2,
            #[trigger] inv.drop_last()[j]->Some_0,
        ) == live(store, inv.drop_last()[j]->Some_0)) && (live(store, inv.drop_last()[j]->Some_0)
            ==> bundle_at(store2, inv.drop_last()[j]->Some_0) == bundle_at(
            store,
            inv.drop_last()[j]->Some_0,
        )) by {
            assert(inv[j]->Some_0 != e);
        }
        lemma_total_congruence(store, store2, inv.drop_last());
    } else {
        assert(forall|j: int| 0 <= j < inv.drop_last().len() ==> inv.drop_last()[j] == inv[j]);
        lemma_total_update_stack(store, inv.drop_last(), k, nb);
        match inv.last() {
            Some(e2) => {
                assert(e2 != e);
                assert(live(store2, e2) == live(store, e2));
                if live(store, e2) {
                    assert(bundle_at(store2, e2) == bundle_at(store, e2));
                }
            },
            None => {},
        }
    }
}

/// Emptying one slot and destroying its entity lowers the total by that
/// stack: no other slot references the entity.
proof fn lemma_total_clear(store: Seq<Option<BundleView>>, inv: Seq<Option<EntityId>>, k: int)
    requires
        refs_distinct(inv),
        0 <= k < inv.len(),
        inv[k] is Some,
        live(store, inv[k]->Some_0),
    ensures
        spec_total(store.update(inv[k]->Some_0.0 as int, None), inv.update(k, None))
            == spec_total(store, inv) - bundle_at(store, inv[k]->Some_0).stack,
    decreases inv.len(),
{
    let e = inv[k]->Some_0;
    let store2 = store.update(e.0 as int, None);
    let inv2 = inv.update(k, None);
    assert(inv[inv.len() - 1] == inv.last());
    assert(inv2[inv2.len() - 1] == inv2.last());
    if k == inv.len() - 1 {
        assert(inv2.last() is None);
        assert(inv2.drop_last() =~= inv.drop_last());
        assert(forall|j: int| 0 <= j < inv.drop_last().len() ==> inv.drop_last()[j] == inv[j]);
        assert forall|j: int|
            0 <= j < inv.drop_last().len() && inv.drop_last()[j] is Some implies (live(
            store2,
            #[trigger] inv.drop_last()[j]->Some_0,
        ) == live(store, inv.drop_last()[j]->Some_0)) && (live(store, inv.drop_last()[j]->Some_0)
            ==> bundle_at(store2, inv.drop_last()[j]->Some_0) == bundle_at(
            store,
            inv.drop_last()[j]->Some_0,
        )) by {
            assert(inv[j]->Some_0 != e);
        }
        lemma_total_congruence(store, store2, inv.drop_last());
    } else {
        assert(inv2.drop_last() =~= inv.drop_last().update(k, None));
        assert(inv2.last() == inv.last());
        assert(forall|j: int| 0 <= j < inv.drop_last().len() ==> inv.drop_last()[j] == inv[j]);
        lemma_total_clear(store, inv.drop_last(), k);
        match inv.last() {
            Some(e2) => {
                assert(e2 != e);
                assert(live(store2, e2) == live(store, e2));
                if live(store, e2) {
                    assert(bundle_at(store2, e2) == bundle_at(store, e2));
                }
            },
            None => {},
        }
    }
}

/// Spawning a bundle into a fresh slot raises the total by its stack.
proof fn lemma_total_spawn(
    store: Seq<Option<BundleView>>,
    inv: Seq<Option<EntityId>>,
    b: BundleView,
)
    requires
        store.len() < u64::MAX,
        forall|j: int|
            0 <= j < inv.len() && inv[j] is Some ==> live(store, #[trigger] inv[j]->Some_0),
    ensures
        spec_total(store.push(Some(b)), inv.push(Some(EntityId(store.len() as u64))))
            == spec_total(store, inv) + b.stack,
{
    let e = EntityId(store.len() as u64);
    let store2 = store.push(Some(b));
    let inv2 = inv.push(Some(e));
    assert(inv2[inv2.len() - 1] == inv2.last());
    assert(inv2.last() == Some(e));
    assert(live(store2, e) && bundle_at(store2, e) == b);
    assert(inv2.drop_last() =~= inv);
    assert forall|j: int| 0 <= j < inv.len() && inv[j] is Some implies (live(
        store2,
        #[trigger] inv[j]->Some_0,
    ) == live(store, inv[j]->Some_0)) && (live(store, inv[j]->Some_0) ==> bundle_at(
        store2,
        inv[j]->Some_0,
    ) == bundle_at(store, inv[j]->Some_0)) by {
        assert(inv[j]->Some_0.0 < store.len());
    }
    lemma_total_congruence(store, store2, inv);
}

/// Shifting the start index across a dropped head reads the same tail.
proof fn lemma_sum_drop_first(items: Seq<BundleView>, j: int)
    requires
        0 <= j,
        items.len() > 0,
    ensures
        sum_stacks_from(items, j + 1) == sum_stacks_from(items.drop_first(), j),
    decreases items.len() - j,
{
    if j + 1 < items.len() {
        assert(items.drop_first()[j] == items[j + 1]);
        lemma_sum_drop_first(items, j + 1);
    }
}

/// Consuming the chosen slots from position `j` on lowers the total by
/// exactly the stack units those ingredients list, and keeps the
/// inventory well-formed.
proof fn lemma_consume_total_rec(
    store: Seq<Option<BundleView>>,
    inv: Seq<Option<EntityId>>,
    items: Seq<BundleView>,
    ids: Seq<int>,
    j: int,
)
    requires
        inv_wf(store, inv),
        ids.len() == items.len(),
        0 <= j <= ids.len(),
        forall|j1: int, j2: int|
            0 <= j1 < j2 < ids.len() ==> #[trigger] ids[j1] != #[trigger] ids[j2],
        forall|j2: int|
            j <= j2 < ids.len() ==> 0 <= #[trigger] ids[j2] < inv.len() && inv[ids[j2]] is Some
                && live(store, inv[ids[j2]]->Some_0) && bundle_at(store, inv[ids[j2]]->Some_0).stack
                >= items[j2].stack,
    ensures
        ({
            let (s1, i1) = crate::craft::spec_consume_rec(store, inv, items, ids, j);
            &&& spec_total(s1, i1) == spec_total(store, inv) - sum_stacks_from(items, j)
            &&& inv_wf(s1, i1)
            &&& i1.len() == inv.len()
        }),
    decreases ids.len() - j,
{
    if j < ids.len() {
        let id = ids[j];
        let e = inv[id]->Some_0;
        let cur = bundle_at(store, e);
        let need = items[j].stack;
        if cur.stack == need {
            let store2 = store.update(e.0 as int, None);
            let inv2 = inv.update(id, None);
            lemma_total_clear(store, inv, id);
            assert forall|a: int|
                0 <= a < inv2.len() && inv2[a] is Some implies live(
                store2,
                #[trigger] inv2[a]->Some_0,
            ) by {
                assert(inv2[a] == inv[a]);
                if a < id {
                    assert(inv[a]->Some_0 != inv[id]->Some_0);
                } else {
                    assert(a != id);
                    assert(inv[id]->Some_0 != inv[a]->Some_0);
                }
            }
            assert(inv_wf(store2, inv2));
            assert forall|j2: int|
                j + 1 <= j2 < ids.len() implies 0 <= #[trigger] ids[j2] < inv2.len()
                && inv2[ids[j2]] is Some && live(store2, inv2[ids[j2]]->Some_0) && bundle_at(
                store2,
                inv2[ids[j2]]->Some_0,
            ).stack >= items[j2].stack by {
                assert(ids[j2] != id);
                assert(inv2[ids[j2]] == inv[ids[j2]]);
                if ids[j2] < id {
                    assert(inv[ids[j2]]->Some_0 != inv[id]->Some_0);
                } else {
                    assert(inv[id]->Some_0 != inv[ids[j2]]->Some_0);
                }
            }
            lemma_consume_total_rec(store2, inv2, items, ids, j + 1);
        } else {
            let nb = BundleView { item: cur.item, stack: (cur.stack - need) as u8 };
            let store2 = store.update(e.0 as int, Some(nb));
            lemma_total_update_stack(store, inv, id, nb);
            assert forall|a: int|
                0 <= a < inv.len() && inv[a] is Some implies live(
                store2,
                #[trigger] inv[a]->Some_0,
            ) by {}
            assert(inv_wf(store2, inv));
            assert forall|j2: int|
                j + 1 <= j2 < ids.len() implies 0 <= #[trigger] ids[j2] < inv.len()
                && inv[ids[j2]] is Some && live(store2, inv[ids[j2]]->Some_0) && bundle_at(
                store2,
                inv[ids[j2]]->Some_0,
            ).stack >= items[j2].stack by {
                assert(ids[j2] != id);
                if ids[j2] < id {
                    assert(inv[ids[j2]]->Some_0 != inv[id]->Some_0);
                } else {
                    assert(inv[id]->Some_0 != inv[ids[j2]]->Some_0);
                }
            }
            lemma_consume_total_rec(store2, inv, items, ids, j + 1);
        }
    }
}

/// Whether every merge the stacking policy would perform for `items`
/// fits its stack counter, and every spawn a fresh identifier: under
/// this proviso no units are clamped away.
pub open spec fn add_combine_fits(
    store: Seq<Option<BundleView>>,
    inv: Seq<Option<EntityId>>,
    items: Seq<BundleView>,
) -> bool
    decreases items.len(),
{
    if items.len() == 0 {
        true
    } else {
        let step = match first_from(
            inv.len() as int,
            slot_has_item(store, inv, items.first().item),
            0,
        ) {
            Some(i) => bundle_at(store, inv[i]->Some_0).stack + items.first().stack <= u8::MAX,
            None => store.len() < u64::MAX,
        };
        step && {
            let (s1, i1) = spec_add_combine_one(store, inv, items.first());
            add_combine_fits(s1, i1, items.drop_first())
        }
    }
}

/// Merging a layout in raises the total by exactly the stack units it
/// lists, provided no merge clamps, and keeps the inventory
/// well-formed.
pub proof fn lemma_add_combine_total(
    store: Seq<Option<BundleView>>,
    inv: Seq<Option<EntityId>>,
    items: Seq<BundleView>,
)
    requires
        inv_wf(store, inv),
        add_combine_fits(store, inv, items),
    ensures
        ({
            let (s1, i1) = crate::inventory::spec_add_combine(store, inv, items);
            &&& spec_total(s1, i1) == spec_total(store, inv) + sum_stacks(items)
            &&& inv_wf(s1, i1)
        }),
    decreases items.len(),
{
    if items.len() > 0 {
        let b = items.first();
        let pred = slot_has_item(store, inv, b.item);
        lemma_first_from(inv.len() as int, pred, 0);
        let (s1, i1) = spec_add_combine_one(store, inv, b);
        match first_from(inv.len() as int, pred, 0) {
            Some(i) => {
                let e = inv[i]->Some_0;
                let cur = bundle_at(store, e);
                let nb = BundleView { item: cur.item, stack: (cur.stack + b.stack) as u8 };
                lemma_total_update_stack(store, inv, i, nb);
                assert forall|a: int|
                    0 <= a < inv.len() && inv[a] is Some implies live(
                    s1,
                    #[trigger] inv[a]->Some_0,
                ) by {}
                assert(inv_wf(s1, i1));
            },
            None => {
                let e = EntityId(store.len() as u64);
                lemma_total_spawn(store, inv, b);
                assert(e.0 as int == store.len() as int);
                assert forall|a: int|
                    0 <= a < i1.len() && i1[a] is Some implies live(
                    s1,
                    #[trigger] i1[a]->Some_0,
                ) by {
                    if a < inv.len() {
                        assert(i1[a] == inv[a]);
                        assert(inv[a]->Some_0.0 < store.len());
                    } else {
                        assert(i1[a] == Some(e));
                    }
                }
                assert forall|a1: int, a2: int|
                    0 <= a1 < a2 < i1.len() && i1[a1] is Some && i1[a2] is Some implies i1[
                    a1
                ]->Some_0 != (#[trigger] i1[a2]->Some_0) by {
                    if a2 == inv.len() {
                        assert(i1[a1] == inv[a1]);
                        assert(inv[a1]->Some_0.0 < store.len());
                    }
                }
                assert(inv_wf(s1, i1));
            },
        }
        lemma_add_combine_total(s1, i1, items.drop_first());
        lemma_sum_drop_first(items, 0);
    }
}

/// Quantity conservation: a craft that consumes the chosen ingredient
/// slots and merges the produced layout in moves the total stack count
/// by exactly (produced − consumed) units. The proviso rules the stack
/// counter's ceiling out of the produce phase; a merge that would pass
/// the ceiling clamps and loses the difference.
pub proof fn lemma_quantity_conservation(
    store: Seq<Option<BundleView>>,
    inv: Seq<Option<EntityId>>,
    items: Seq<BundleView>,
    out: Seq<BundleView>,
)
    requires
        inv_wf(store, inv),
        crate::inventory::spec_search_satisfying(store, inv, items) is Some,
        ({
            let ids = crate::inventory::spec_search_satisfying(store, inv, items)->Some_0;
            let (s1, i1) = crate::craft::spec_consume(store, inv, items, ids);
            add_combine_fits(s1, i1, out)
        }),
    ensures
        ({
            let ids = crate::inventory::spec_search_satisfying(store, inv, items)->Some_0;
            let (s1, i1) = crate::craft::spec_consume(store, inv, items, ids);
            let (s2, i2) = crate::inventory::spec_add_combine(s1, i1, out);
            spec_total(s2, i2) == spec_total(store, inv) - sum_stacks(items) + sum_stacks(out)
        }),
{
    let ids = crate::inventory::spec_search_satisfying(store, inv, items)->Some_0;
    crate::inventory::lemma_search_satisfying_props(store, inv, items);
    assert forall|j2: int|
        0 <= j2 < ids.len() implies 0 <= #[trigger] ids[j2] < inv.len() && inv[ids[j2]] is Some
        && live(store, inv[ids[j2]]->Some_0) && bundle_at(store, inv[ids[j2]]->Some_0).stack
        >= items[j2].stack by {
        assert(crate::inventory::slot_feasible(store, inv, items[j2], ids.subrange(0, j2))(
            ids[j2],
        ));
    }
    lemma_consume_total_rec(store, inv, items, ids, 0);
    let (s1, i1) = crate::craft::spec_consume(store, inv, items, ids);
    lemma_add_combine_total(s1, i1, out);
}

} // verus!
