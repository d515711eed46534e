//! The crafting flow per request: recipe lookup, feasibility, consume,
//! produce — in that order. Looking the recipe up before consuming makes
//! the flow transactional: a missing recipe or an infeasible inventory
//! leaves every stack untouched.
//!
//! Consumption decrements each chosen slot's stack in place; a stack
//! that reaches zero leaves a hole at its slot and its entity is
//! destroyed.

use vstd::prelude::*;

use crate::inventory::{
    idxs, inv_wf, lemma_search_satisfying_props, slot_feasible, spec_add_combine,
    spec_search_satisfying, Inventory,
};
use crate::item::BundleView;
use crate::layout::ItemsLayout;
use crate::store::{bundle_at, live, EntityId, ItemStore};
use crate::workbench::{spec_craft, Workbench};

verus! {

/// Why a craft request resolved to nothing. Either way the inventory and
/// the store are exactly as they were.
#[derive(Clone, Copy, PartialEq, Eq, Structural, Debug)]
pub enum CraftError {
    /// No recipe is registered under the presented input layout.
    RecipeUnavailable,
    /// The inventory cannot cover the recipe's ingredients.
    NotFound,
}

/// Consumption of the chosen slots, one ingredient at a time from `j`
/// on: the slot's stack loses the required count; a stack consumed to
/// zero clears the slot and destroys its entity.
pub open spec fn spec_consume_rec(
    store: Seq<Option<BundleView>>,
    inv: Seq<Option<EntityId>>,
    items: Seq<BundleView>,
    ids: Seq<int>,
    j: int,
) -> (Seq<Option<BundleView>>, Seq<Option<EntityId>>)
    decreases ids.len() - j,
{
    if j < 0 || j >= ids.len() || ids.len() != items.len() {
        (store, inv)
    } else {
        let e = inv[ids[j]]->Some_0;
        let cur = bundle_at(store, e);
        let need = items[j].stack;
        if cur.stack == need {
            spec_consume_rec(
                store.update(e.0 as int, None),
                inv.update(ids[j], None),
                items,
                ids,
                j + 1,
            )
        } else {
            spec_consume_rec(
                store.update(
                    e.0 as int,
                    Some(BundleView { item: cur.item, stack: (cur.stack - need) as u8 }),
                ),
                inv,
                items,
                ids,
                j + 1,
            )
        }
    }
}

/// Consumption of all chosen slots.
pub open spec fn spec_consume(
    store: Seq<Option<BundleView>>,
    inv: Seq<Option<EntityId>>,
    items: Seq<BundleView>,
    ids: Seq<int>,
) -> (Seq<Option<BundleView>>, Seq<Option<EntityId>>) {
    spec_consume_rec(store, inv, items, ids, 0)
}

/// One craft request against `workbench`: look the recipe up, check
/// feasibility, consume the ingredients, merge the products in. On
/// either failure the result says which check failed and nothing has
/// changed — ingredients are never consumed without the product being
/// owed.
pub fn craft(
    workbench: &Workbench,
    store: &mut ItemStore,
    inventory: &mut Inventory,
    input: &ItemsLayout,
) -> (r: Result<ItemsLayout, CraftError>)
    requires
        inv_wf(old(store)@, old(inventory)@),
    ensures
        match spec_craft(workbench.recipes@, input@) {
            None => {
                &&& r is Err && r->Err_0 == CraftError::RecipeUnavailable
                &&& final(store)@ == old(store)@
                &&& final(inventory)@ == old(inventory)@
            },
            Some(out) => match spec_search_satisfying(old(store)@, old(inventory)@, input@) {
                None => {
                    &&& r is Err && r->Err_0 == CraftError::NotFound
                    &&& final(store)@ == old(store)@
                    &&& final(inventory)@ == old(inventory)@
                },
                Some(ids) => {
                    &&& (final(store)@, final(inventory)@) == spec_add_combine(
                        spec_consume(old(store)@, old(inventory)@, input@, ids).0,
                        spec_consume(old(store)@, old(inventory)@, input@, ids).1,
                        out,
                    )
                    &&& r is Ok
                    &&& r->Ok_0@ == out
                    &&& inv_wf(final(store)@, final(inventory)@)
                },
            },
        },
{
    let output = match workbench.craft(input) {
        Some(o) => o,
        None => {
            return Err(CraftError::RecipeUnavailable);
        },
    };
    let ids = match inventory.search_satisfying(store, input) {
        Some(ids) => ids,
        None => {
            return Err(CraftError::NotFound);
        },
    };
    let ghost s0 = store@;
    let ghost i0 = inventory@;
    let ghost sids = idxs(ids@);
    let ghost litems = input@;
    proof {
        lemma_search_satisfying_props(s0, i0, litems);
    }
    let mut j: usize = 0;
    while j < ids.len()
        invariant
            j <= ids@.len(),
            sids == idxs(ids@),
            litems == input@,
            input@.len() == input.0@.len(),
            forall|k: int| 0 <= k < input@.len() ==> input@[k] == input.0@[k]@,
            ids@.len() == litems.len(),
            inv_wf(s0, i0),
            forall|j2: int|
                0 <= j2 < ids@.len() ==> slot_feasible(s0, i0, litems[j2], sids.subrange(0, j2))(
                    #[trigger] sids[j2],
                ),
            forall|j1: int, j2: int|
                0 <= j1 < j2 < ids@.len() ==> #[trigger] sids[j1] != #[trigger] sids[j2],
            spec_consume_rec(s0, i0, litems, sids, 0) == spec_consume_rec(
                store@,
                inventory@,
                litems,
                sids,
                j as int,
            ),
            inv_wf(store@, inventory@),
            inventory@.len() == i0.len(),
            forall|j2: int|
                j <= j2 < ids@.len() ==> #[trigger] inventory@[sids[j2]] == i0[sids[j2]],
            forall|j2: int|
                j <= j2 < ids@.len() ==> live(store@, i0[#[trigger] sids[j2]]->Some_0)
                    && bundle_at(store@, i0[sids[j2]]->Some_0) == bundle_at(
                    s0,
                    i0[sids[j2]]->Some_0,
                ),
        decreases ids@.len() - j,
    {
        let ghost sprev = store@;
        let ghost iprev = inventory@;
        let id = ids[j];
        proof {
            assert(sids[j as int] == id as int);
            assert(slot_feasible(s0, i0, litems[j as int], sids.subrange(0, j as int))(
                sids[j as int],
            ));
        }
        let e = match inventory.slots[id] {
            Some(e) => e,
            None => EntityId(0),
        };
        let need = input.0[j].stack.0;
        let cur = match store.get(e) {
            Some(b) => b.stack.0,
            None => 0,
        };
        if cur == need {
            inventory.take(id);
            store.despawn(e);
            proof {
                assert forall|a: int|
                    0 <= a < inventory@.len() && inventory@[a] is Some implies live(
                    store@,
                    #[trigger] inventory@[a]->Some_0,
                ) by {
                    assert(inventory@[a] == iprev[a]);
                    if a < id as int {
                        assert(iprev[a]->Some_0 != iprev[id as int]->Some_0);
                    } else {
                        assert(a != id as int);
                        assert(iprev[id as int]->Some_0 != iprev[a]->Some_0);
                    }
                }
                assert(inv_wf(store@, inventory@));
            }
        } else {
            store.decrease_stack(e, need);
            proof {
                assert forall|a: int|
                    0 <= a < inventory@.len() && inventory@[a] is Some implies live(
                    store@,
                    #[trigger] inventory@[a]->Some_0,
                ) by {}
                assert(inv_wf(store@, inventory@));
            }
        }
        proof {
            assert forall|j2: int| j + 1 <= j2 < ids@.len() implies live(
                store@,
                i0[#[trigger] sids[j2]]->Some_0,
            ) && bundle_at(store@, i0[sids[j2]]->Some_0) == bundle_at(
                s0,
                i0[sids[j2]]->Some_0,
            ) by {
                assert(i0[sids[j as int]] is Some && i0[sids[j2]] is Some);
                assert(i0[sids[j as int]]->Some_0 != i0[sids[j2]]->Some_0);
                assert(i0[sids[j as int]]->Some_0 == e);
            }
            assert(spec_consume_rec(sprev, iprev, litems, sids, j as int) == spec_consume_rec(
                store@,
                inventory@,
                litems,
                sids,
                j as int + 1,
            ));
        }
        j = j + 1;
    }
    inventory.add_combine(store, &output);
    Ok(output)
}

} // verus!
