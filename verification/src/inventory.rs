//! The inventory: an ordered list of slots, each optionally referencing
//! one item-stack entity in the shared [`ItemStore`]. Taking a slot
//! leaves a hole at its index; new items are appended, never inserted
//! into holes.

use vstd::prelude::*;

use crate::item::{same_ingredient, same_item, BundleView, Item, ItemBundle};
use crate::layout::ItemsLayout;
use crate::store::{bundle_at, live, EntityId, ItemStore};

verus! {

/// Component owned by a player or container: the slot list.
#[derive(Debug)]
pub struct Inventory {
    pub slots: Vec<Option<EntityId>>,
}

impl View for Inventory {
    type V = Seq<Option<EntityId>>;

    open spec fn view(&self) -> Seq<Option<EntityId>> {
        self.slots@
    }
}

/// Inventory invariant against the store: every occupied slot references
/// a live item entity, and no entity is referenced by two slots.
pub open spec fn inv_wf(store: Seq<Option<BundleView>>, inv: Seq<Option<EntityId>>) -> bool {
    &&& forall|i: int|
        0 <= i < inv.len() && inv[i] is Some ==> live(store, #[trigger] inv[i]->Some_0)
    &&& forall|i: int, j: int|
        0 <= i < j < inv.len() && inv[i] is Some && inv[j] is Some ==> inv[i]->Some_0 != (
        #[trigger] inv[j]->Some_0)
}

/// First index in `from..len` satisfying `pred`, if any.
pub open spec fn first_from(len: int, pred: spec_fn(int) -> bool, from: int) -> Option<int>
    decreases len - from,
{
    if from < 0 || from >= len {
        None
    } else if pred(from) {
        Some(from)
    } else {
        first_from(len, pred, from + 1)
    }
}

/// What [`first_from`] returns: the first satisfying index at or after
/// `from`, or nothing when no index satisfies `pred`.
pub proof fn lemma_first_from(len: int, pred: spec_fn(int) -> bool, from: int)
    requires
        0 <= from <= len,
    ensures
        match first_from(len, pred, from) {
            Some(i) => from <= i < len && pred(i) && forall|j: int| from <= j < i ==> !(#[trigger] pred(j)),
            None => forall|j: int| from <= j < len ==> !(#[trigger] pred(j)),
        },
    decreases len - from,
{
    if from < len && !pred(from) {
        lemma_first_from(len, pred, from + 1);
    }
}

/// Emptying any one slot keeps an inventory well-formed: the remaining
/// occupied slots are a subset of what they were.
pub proof fn lemma_wf_clear_slot(
    store: Seq<Option<BundleView>>,
    inv: Seq<Option<EntityId>>,
    i: int,
)
    requires
        inv_wf(store, inv),
        0 <= i < inv.len(),
    ensures
        inv_wf(store, inv.update(i, None)),
{
    let inv2 = inv.update(i, None);
    assert forall|a: int| 0 <= a < inv2.len() && inv2[a] is Some implies live(
        store,
        #[trigger] inv2[a]->Some_0,
    ) by {
        assert(inv2[a] == inv[a]);
    }
}

/// The slot predicate used by entity search: the slot holds `e`.
pub open spec fn slot_holds(inv: Seq<Option<EntityId>>, e: EntityId) -> spec_fn(int) -> bool {
    |i: int| inv[i] == Some(e)
}

/// The slot predicate used by item search: the slot references a live
/// entity whose item equals `item`.
pub open spec fn slot_has_item(
    store: Seq<Option<BundleView>>,
    inv: Seq<Option<EntityId>>,
    item: crate::item::ItemView,
) -> spec_fn(int) -> bool {
    |i: int|
        inv[i] is Some && live(store, inv[i]->Some_0) && same_item(
            bundle_at(store, inv[i]->Some_0).item,
            item,
        )
}

/// Result of removing slot `id`: the new slot list and the entity taken.
/// An out-of-range index or a hole leaves the inventory unchanged.
pub open spec fn spec_take(inv: Seq<Option<EntityId>>, id: int) -> (Seq<Option<EntityId>>, Option<
    EntityId,
>) {
    if 0 <= id < inv.len() && inv[id] is Some {
        (inv.update(id, None), inv[id])
    } else {
        (inv, None)
    }
}

/// Result of removing the first slot that holds `e`.
pub open spec fn spec_take_linear(inv: Seq<Option<EntityId>>, e: EntityId) -> (Seq<
    Option<EntityId>,
>, Option<EntityId>) {
    match first_from(inv.len() as int, slot_holds(inv, e), 0) {
        Some(i) => (inv.update(i, None), Some(e)),
        None => (inv, None),
    }
}

/// Slot indices as mathematical integers.
pub open spec fn idxs(v: Seq<usize>) -> Seq<int> {
    Seq::new(v.len(), |j: int| v[j] as int)
}

/// Slot predicate for feasibility: the slot references a live entity of
/// the required name and kind, holds at least the required count, and was
/// not already chosen for an earlier ingredient.
pub open spec fn slot_feasible(
    store: Seq<Option<BundleView>>,
    inv: Seq<Option<EntityId>>,
    ing: BundleView,
    chosen: Seq<int>,
) -> spec_fn(int) -> bool {
    |i: int|
        0 <= i < inv.len() && inv[i] is Some && live(store, inv[i]->Some_0) && same_ingredient(
            bundle_at(store, inv[i]->Some_0).item,
            ing.item,
        ) && bundle_at(store, inv[i]->Some_0).stack >= ing.stack && !chosen.contains(i)
}

/// The feasibility check from ingredient `k` on, with the slots already
/// chosen for earlier ingredients excluded: greedy, first match, left to
/// right; one distinct slot per ingredient or nothing.
pub open spec fn spec_search_satisfying_rec(
    store: Seq<Option<BundleView>>,
    inv: Seq<Option<EntityId>>,
    items: Seq<BundleView>,
    k: int,
    chosen: Seq<int>,
) -> Option<Seq<int>>
    decreases items.len() - k,
{
    if k < 0 || k >= items.len() {
        Some(chosen)
    } else {
        match first_from(inv.len() as int, slot_feasible(store, inv, items[k], chosen), 0) {
            Some(i) => spec_search_satisfying_rec(store, inv, items, k + 1, chosen.push(i)),
            None => None,
        }
    }
}

/// The feasibility check over a whole ingredient list.
pub open spec fn spec_search_satisfying(
    store: Seq<Option<BundleView>>,
    inv: Seq<Option<EntityId>>,
    items: Seq<BundleView>,
) -> Option<Seq<int>> {
    spec_search_satisfying_rec(store, inv, items, 0, Seq::empty())
}

/// What a successful feasibility check hands back, continuing from `k`
/// with `chosen` already fixed: the chosen prefix survives, and every
/// later pick satisfies its ingredient while avoiding all earlier picks.
pub proof fn lemma_search_satisfying_rec_props(
    store: Seq<Option<BundleView>>,
    inv: Seq<Option<EntityId>>,
    items: Seq<BundleView>,
    k: int,
    chosen: Seq<int>,
)
    requires
        0 <= k <= items.len(),
    ensures
        match spec_search_satisfying_rec(store, inv, items, k, chosen) {
            Some(ids) => {
                &&& ids.len() == chosen.len() + items.len() - k
                &&& ids.subrange(0, chosen.len() as int) == chosen
                &&& forall|j: int|
                    chosen.len() <= j < ids.len() ==> slot_feasible(
                        store,
                        inv,
                        items[k + j - chosen.len()],
                        ids.subrange(0, j),
                    )(#[trigger] ids[j])
            },
            None => true,
        },
    decreases items.len() - k,
{
    if k < items.len() {
        match first_from(inv.len() as int, slot_feasible(store, inv, items[k], chosen), 0) {
            Some(i) => {
                lemma_first_from(inv.len() as int, slot_feasible(store, inv, items[k], chosen), 0);
                lemma_search_satisfying_rec_props(store, inv, items, k + 1, chosen.push(i));
                match spec_search_satisfying_rec(store, inv, items, k + 1, chosen.push(i)) {
                    Some(ids) => {
                        assert(ids.subrange(0, chosen.len() as int) =~= chosen.push(i).subrange(
                            0,
                            chosen.len() as int,
                        )) by {
                            assert(ids.subrange(0, chosen.push(i).len() as int) == chosen.push(i));
                            assert forall|j: int| 0 <= j < chosen.len() implies ids.subrange(
                                0,
                                chosen.len() as int,
                            )[j] == chosen.push(i).subrange(0, chosen.len() as int)[j] by {
                                assert(ids[j] == ids.subrange(0, chosen.push(i).len() as int)[j]);
                            }
                        }
                        assert(chosen.push(i).subrange(0, chosen.len() as int) =~= chosen);
                        assert(ids.subrange(0, chosen.push(i).len() as int) == chosen.push(i));
                        assert(ids[chosen.len() as int] == chosen.push(i)[chosen.len() as int]);
                        assert(slot_feasible(store, inv, items[k], chosen)(
                            ids[chosen.len() as int],
                        ));
                    },
                    None => {},
                }
            },
            None => {},
        }
    }
}

/// Two distinct picks of one successful feasibility check never name the
/// same slot, and every pick satisfies its ingredient.
pub proof fn lemma_search_satisfying_props(
    store: Seq<Option<BundleView>>,
    inv: Seq<Option<EntityId>>,
    items: Seq<BundleView>,
)
    ensures
        match spec_search_satisfying(store, inv, items) {
            Some(ids) => {
                &&& ids.len() == items.len()
                &&& forall|j: int|
                    0 <= j < ids.len() ==> slot_feasible(store, inv, items[j], ids.subrange(0, j))(
                        #[trigger] ids[j],
                    )
                &&& forall|j1: int, j2: int|
                    0 <= j1 < j2 < ids.len() ==> #[trigger] ids[j1] != #[trigger] ids[j2]
            },
            None => true,
        },
{
    lemma_search_satisfying_rec_props(store, inv, items, 0, Seq::empty());
    match spec_search_satisfying(store, inv, items) {
        Some(ids) => {
            assert forall|j1: int, j2: int| 0 <= j1 < j2 < ids.len() implies #[trigger] ids[j1]
                != #[trigger] ids[j2] by {
                assert(slot_feasible(store, inv, items[j2], ids.subrange(0, j2))(ids[j2]));
                assert(ids.subrange(0, j2)[j1] == ids[j1]);
                assert(ids.subrange(0, j2).contains(ids[j1]));
            }
        },
        None => {},
    }
}

/// The slot list with every index in `ids` emptied.
pub open spec fn spec_cleared(inv: Seq<Option<EntityId>>, ids: Seq<int>) -> Seq<Option<EntityId>> {
    Seq::new(
        inv.len(),
        |i: int|
            if ids.contains(i) {
                None
            } else {
                inv[i]
            },
    )
}

/// Slot predicate for removal: the slot references a live entity whose
/// item equals `b`'s and whose stack can cover `b`'s count.
pub open spec fn slot_removable(
    store: Seq<Option<BundleView>>,
    inv: Seq<Option<EntityId>>,
    b: BundleView,
) -> spec_fn(int) -> bool {
    |i: int|
        0 <= i < inv.len() && inv[i] is Some && live(store, inv[i]->Some_0) && same_item(
            bundle_at(store, inv[i]->Some_0).item,
            b.item,
        ) && bundle_at(store, inv[i]->Some_0).stack >= b.stack
}

/// The removal policy for a bundle `b`: the first slot holding a
/// sufficient stack of the same item loses `b`'s count; a stack that
/// reaches zero clears the slot and destroys its entity. With no such
/// slot nothing changes and the removal reports failure — an
/// insufficient stack is rejected, never driven below zero.
pub open spec fn spec_remove_combine(
    store: Seq<Option<BundleView>>,
    inv: Seq<Option<EntityId>>,
    b: BundleView,
) -> (Seq<Option<BundleView>>, Seq<Option<EntityId>>, bool) {
    match first_from(inv.len() as int, slot_removable(store, inv, b), 0) {
        Some(i) => {
            let e = inv[i]->Some_0;
            let cur = bundle_at(store, e);
            if cur.stack == b.stack {
                (store.update(e.0 as int, None), inv.update(i, None), true)
            } else {
                (
                    store.update(
                        e.0 as int,
                        Some(BundleView { item: cur.item, stack: (cur.stack - b.stack) as u8 }),
                    ),
                    inv,
                    true,
                )
            }
        },
        None => (store, inv, false),
    }
}

/// One step of the merge/stacking policy for a bundle `b`: if some slot
/// already holds a structurally equal item, that stack grows by `b`'s
/// count (clamped at the counter's ceiling) in place; otherwise a fresh
/// entity is spawned and a new slot appended.
pub open spec fn spec_add_combine_one(
    store: Seq<Option<BundleView>>,
    inv: Seq<Option<EntityId>>,
    b: BundleView,
) -> (Seq<Option<BundleView>>, Seq<Option<EntityId>>) {
    match first_from(inv.len() as int, slot_has_item(store, inv, b.item), 0) {
        Some(i) => {
            let e = inv[i]->Some_0;
            let cur = bundle_at(store, e);
            let ns = if cur.stack + b.stack <= u8::MAX {
                (cur.stack + b.stack) as u8
            } else {
                u8::MAX
            };
            (store.update(e.0 as int, Some(BundleView { item: cur.item, stack: ns })), inv)
        },
        None => (store.push(Some(b)), inv.push(Some(EntityId(store.len() as u64)))),
    }
}

/// The merge/stacking policy applied to a whole layout, left to right.
pub open spec fn spec_add_combine(
    store: Seq<Option<BundleView>>,
    inv: Seq<Option<EntityId>>,
    items: Seq<BundleView>,
) -> (Seq<Option<BundleView>>, Seq<Option<EntityId>>)
    decreases items.len(),
{
    if items.len() == 0 {
        (store, inv)
    } else {
        let (s1, i1) = spec_add_combine_one(store, inv, items.first());
        spec_add_combine(s1, i1, items.drop_first())
    }
}

/// Folding one more bundle onto the end of a layout is one more
/// [`spec_add_combine_one`] step after the rest.
pub proof fn lemma_add_combine_snoc(
    store: Seq<Option<BundleView>>,
    inv: Seq<Option<EntityId>>,
    items: Seq<BundleView>,
    x: BundleView,
)
    ensures
        spec_add_combine(store, inv, items.push(x)) == ({
            let (s1, i1) = spec_add_combine(store, inv, items);
            spec_add_combine_one(s1, i1, x)
        }),
    decreases items.len(),
{
    if items.len() == 0 {
        assert(items.push(x).first() == x);
        assert(items.push(x).drop_first() =~= Seq::<BundleView>::empty());
        let (s1, i1) = spec_add_combine_one(store, inv, x);
        assert(spec_add_combine(store, inv, items.push(x)) == spec_add_combine(
            s1,
            i1,
            items.push(x).drop_first(),
        ));
        assert(spec_add_combine(s1, i1, items.push(x).drop_first()) == (s1, i1));
        assert(spec_add_combine(store, inv, items) == (store, inv));
    } else {
        assert(items.push(x).first() == items.first());
        assert(items.push(x).drop_first() =~= items.drop_first().push(x));
        let (s1, i1) = spec_add_combine_one(store, inv, items.first());
        assert(spec_add_combine(store, inv, items.push(x)) == spec_add_combine(
            s1,
            i1,
            items.drop_first().push(x),
        ));
        lemma_add_combine_snoc(s1, i1, items.drop_first(), x);
        assert(spec_add_combine(store, inv, items) == spec_add_combine(
            s1,
            i1,
            items.drop_first(),
        ));
    }
}

/// Whether `v` names slot index `x`.
fn vec_contains_idx(v: &Vec<usize>, x: usize) -> (r: bool)
    ensures
        r == idxs(v@).contains(x as int),
{
    let mut i: usize = 0;
    while i < v.len()
        invariant
            i <= v@.len(),
            forall|j: int| 0 <= j < i ==> #[trigger] idxs(v@)[j] != x as int,
        decreases v@.len() - i,
    {
        if v[i] == x {
            proof {
                assert(idxs(v@)[i as int] == x as int);
            }
            return true;
        }
        proof {
            assert(idxs(v@)[i as int] != x as int);
        }
        i = i + 1;
    }
    proof {
        assert(!idxs(v@).contains(x as int)) by {
            if idxs(v@).contains(x as int) {
                let w = choose|w: int| 0 <= w < idxs(v@).len() && idxs(v@)[w] == x as int;
                assert(idxs(v@)[w] != x as int);
            }
        }
    }
    false
}

impl Inventory {
    pub fn new() -> (r: Self)
        ensures
            r@ == Seq::<Option<EntityId>>::empty(),
    {
        Inventory { slots: Vec::new() }
    }

    /// Append another inventory's slots onto this one, draining the
    /// other ("take all" from a container).
    pub fn join(&mut self, other: &mut Inventory)
        ensures
            final(self)@ == old(self)@ + old(other)@,
            final(other)@ == Seq::<Option<EntityId>>::empty(),
    {
        self.slots.append(&mut other.slots);
    }

    /// Append a slot referencing an existing item entity.
    pub fn add_single(&mut self, entity: EntityId)
        ensures
            final(self)@ == old(self)@.push(Some(entity)),
    {
        self.slots.push(Some(entity));
    }

    /// Append one slot per entity in `vec`, in order.
    pub fn add_vec(&mut self, vec: Vec<EntityId>)
        ensures
            final(self)@ == old(self)@ + Seq::new(vec@.len(), |i: int| Some(vec@[i])),
    {
        let ghost orig = self@;
        let mut i: usize = 0;
        while i < vec.len()
            invariant
                i <= vec@.len(),
                self@ == orig + Seq::new(i as nat, |j: int| Some(vec@[j])),
            decreases vec@.len() - i,
        {
            self.slots.push(Some(vec[i]));
            proof {
                assert(self@ =~= orig + Seq::new((i + 1) as nat, |j: int| Some(vec@[j])));
            }
            i = i + 1;
        }
        proof {
            assert(Seq::new(vec@.len(), |j: int| Some(vec@[j])) =~= Seq::new(
                i as nat,
                |j: int| Some(vec@[j]),
            ));
        }
    }

    /// Empty the slot at `id`, handing its entity back.
    pub fn take(&mut self, id: usize) -> (r: Option<EntityId>)
        ensures
            (final(self)@, r) == spec_take(old(self)@, id as int),
    {
        if id < self.slots.len() {
            match self.slots[id] {
                Some(e) => {
                    self.slots.set(id, None);
                    Some(e)
                },
                None => None,
            }
        } else {
            None
        }
    }

    /// First slot index holding `entity`, if any.
    pub fn search(&self, entity: EntityId) -> (r: Option<usize>)
        ensures
            match r {
                Some(i) => first_from(self@.len() as int, slot_holds(self@, entity), 0) == Some(
                    i as int,
                ),
                None => first_from(self@.len() as int, slot_holds(self@, entity), 0) is None,
            },
    {
        let ghost pred = slot_holds(self@, entity);
        proof {
            lemma_first_from(self@.len() as int, pred, 0);
        }
        let mut i: usize = 0;
        while i < self.slots.len()
            invariant
                i <= self@.len(),
                pred == slot_holds(self@, entity),
                forall|j: int| 0 <= j < i ==> !(#[trigger] pred(j)),
            decreases self@.len() - i,
        {
            match &self.slots[i] {
                Some(e) => {
                    if e.0 == entity.0 {
                        proof {
                            assert(pred(i as int));
                            lemma_first_from(self@.len() as int, pred, 0);
                            match first_from(self@.len() as int, pred, 0) {
                                Some(k) => {
                                    if k < i as int {
                                        assert(!pred(k));
                                    }
                                },
                                None => {
                                    assert(!pred(i as int));
                                },
                            }
                        }
                        return Some(i);
                    }
                },
                None => {},
            }
            proof {
                assert(!pred(i as int));
            }
            i = i + 1;
        }
        None
    }

    /// The general-purpose search primitive: first slot index whose live
    /// (bundle, entity) pair satisfies `condition`. Occupied slots whose
    /// entity is missing from the store are passed over. The contract
    /// speaks through `call_ensures`: whatever `condition` promises of
    /// its result carries over to the slot found and to every earlier
    /// live slot it rejected.
    pub fn search_condition<F: Fn(&ItemBundle, EntityId) -> bool>(
        &self,
        store: &ItemStore,
        condition: F,
    ) -> (r: Option<usize>)
        requires
            forall|b: &ItemBundle, e: EntityId| #[trigger] call_requires(condition, (b, e)),
        ensures
            match r {
                Some(i) => {
                    &&& i < self@.len()
                    &&& self@[i as int] is Some
                    &&& live(store@, self@[i as int]->Some_0)
                    &&& exists|b: &ItemBundle|
                        b@ == bundle_at(store@, self@[i as int]->Some_0) && #[trigger] call_ensures(
                            condition,
                            (b, self@[i as int]->Some_0),
                            true,
                        )
                    &&& forall|j: int|
                        0 <= j < i && #[trigger] self@[j] is Some && live(store@, self@[j]->Some_0)
                            ==> exists|b: &ItemBundle|
                            b@ == bundle_at(store@, self@[j]->Some_0) && #[trigger] call_ensures(
                                condition,
                                (b, self@[j]->Some_0),
                                false,
                            )
                },
                None => forall|j: int|
                    0 <= j < self@.len() && #[trigger] self@[j] is Some && live(
                        store@,
                        self@[j]->Some_0,
                    ) ==> exists|b: &ItemBundle|
                        b@ == bundle_at(store@, self@[j]->Some_0) && #[trigger] call_ensures(
                            condition,
                            (b, self@[j]->Some_0),
                            false,
                        ),
            },
    {
        let mut i: usize = 0;
        while i < self.slots.len()
            invariant
                i <= self@.len(),
                forall|b: &ItemBundle, e: EntityId| #[trigger] call_requires(condition, (b, e)),
                forall|j: int|
                    0 <= j < i && #[trigger] self@[j] is Some && live(store@, self@[j]->Some_0)
                        ==> exists|b: &ItemBundle|
                        b@ == bundle_at(store@, self@[j]->Some_0) && #[trigger] call_ensures(
                            condition,
                            (b, self@[j]->Some_0),
                            false,
                        ),
            decreases self@.len() - i,
        {
            match &self.slots[i] {
                Some(e) => {
                    match store.get(*e) {
                        Some(b) => {
                            if condition(b, *e) {
                                return Some(i);
                            }
                        },
                        None => {},
                    }
                },
                None => {},
            }
            i = i + 1;
        }
        None
    }

    /// First slot index whose live entity carries an item structurally
    /// equal to `item`, if any.
    pub fn search_item(&self, store: &ItemStore, item: &Item) -> (r: Option<usize>)
        ensures
            match r {
                Some(i) => first_from(self@.len() as int, slot_has_item(store@, self@, item@), 0)
                    == Some(i as int),
                None => first_from(
                    self@.len() as int,
                    slot_has_item(store@, self@, item@),
                    0,
                ) is None,
            },
    {
        let ghost pred = slot_has_item(store@, self@, item@);
        proof {
            lemma_first_from(self@.len() as int, pred, 0);
        }
        let mut i: usize = 0;
        while i < self.slots.len()
            invariant
                i <= self@.len(),
                pred == slot_has_item(store@, self@, item@),
                forall|j: int| 0 <= j < i ==> !(#[trigger] pred(j)),
            decreases self@.len() - i,
        {
            match &self.slots[i] {
                Some(e) => {
                    match store.get(*e) {
                        Some(b) => {
                            if crate::item::item_eq(&b.item, item) {
                                proof {
                                    assert(pred(i as int));
                                    lemma_first_from(self@.len() as int, pred, 0);
                                    match first_from(self@.len() as int, pred, 0) {
                                        Some(k) => {
                                            if k < i as int {
                                                assert(!pred(k));
                                            }
                                        },
                                        None => {
                                            assert(!pred(i as int));
                                        },
                                    }
                                }
                                return Some(i);
                            }
                        },
                        None => {},
                    }
                },
                None => {},
            }
            proof {
                assert(!pred(i as int));
            }
            i = i + 1;
        }
        None
    }

    /// Remove the first slot whose live entity carries an item
    /// structurally equal to `item`, handing that entity back.
    pub fn take_linear_item(&mut self, store: &ItemStore, item: &Item) -> (r: Option<EntityId>)
        ensures
            match first_from(old(self)@.len() as int, slot_has_item(store@, old(self)@, item@), 0) {
                Some(i) => final(self)@ == old(self)@.update(i, None) && r == old(self)@[i],
                None => final(self)@ == old(self)@ && r is None,
            },
    {
        let ghost inv0 = self@;
        let ghost pred = slot_has_item(store@, self@, item@);
        match self.search_item(store, item) {
            Some(i) => {
                proof {
                    lemma_first_from(inv0.len() as int, pred, 0);
                }
                self.take(i)
            },
            None => None,
        }
    }

    /// First slot that can serve ingredient `ing` and is not named in
    /// `chosen`.
    fn search_feasible(&self, store: &ItemStore, ing: &ItemBundle, chosen: &Vec<usize>) -> (r:
        Option<usize>)
        ensures
            match r {
                Some(i) => first_from(
                    self@.len() as int,
                    slot_feasible(store@, self@, ing@, idxs(chosen@)),
                    0,
                ) == Some(i as int),
                None => first_from(
                    self@.len() as int,
                    slot_feasible(store@, self@, ing@, idxs(chosen@)),
                    0,
                ) is None,
            },
    {
        let ghost pred = slot_feasible(store@, self@, ing@, idxs(chosen@));
        proof {
            lemma_first_from(self@.len() as int, pred, 0);
        }
        let mut i: usize = 0;
        while i < self.slots.len()
            invariant
                i <= self@.len(),
                pred == slot_feasible(store@, self@, ing@, idxs(chosen@)),
                forall|j: int| 0 <= j < i ==> !(#[trigger] pred(j)),
            decreases self@.len() - i,
        {
            let ghost cs = idxs(chosen@);
            match &self.slots[i] {
                Some(e) => {
                    match store.get(*e) {
                        Some(b) => {
                            if crate::item::ingredient_eq(&b.item, &ing.item) && b.stack.0
                                >= ing.stack.0 && !vec_contains_idx(chosen, i) {
                                proof {
                                    assert(pred(i as int));
                                    lemma_first_from(self@.len() as int, pred, 0);
                                    match first_from(self@.len() as int, pred, 0) {
                                        Some(k) => {
                                            if k < i as int {
                                                assert(!pred(k));
                                            }
                                        },
                                        None => {
                                            assert(!pred(i as int));
                                        },
                                    }
                                }
                                return Some(i);
                            }
                        },
                        None => {},
                    }
                },
                None => {},
            }
            proof {
                assert(!pred(i as int));
            }
            i = i + 1;
        }
        None
    }

    /// The feasibility check: find one distinct slot per ingredient of
    /// the recipe's input layout, by name and kind with enough stack.
    /// All of the slots or none: partial matches are discarded, and
    /// nothing has been mutated yet.
    pub fn search_satisfying(&self, store: &ItemStore, layout: &ItemsLayout) -> (r: Option<
        Vec<usize>,
    >)
        ensures
            match r {
                Some(ids) => spec_search_satisfying(store@, self@, layout@) == Some(idxs(ids@)),
                None => spec_search_satisfying(store@, self@, layout@) is None,
            },
    {
        let mut ids: Vec<usize> = Vec::new();
        let mut k: usize = 0;
        proof {
            assert(idxs(ids@) =~= Seq::<int>::empty());
        }
        while k < layout.0.len()
            invariant
                k <= layout.0@.len(),
                ids@.len() == k,
                layout@.len() == layout.0@.len(),
                forall|j: int| 0 <= j < layout@.len() ==> layout@[j] == layout.0@[j]@,
                spec_search_satisfying(store@, self@, layout@) == spec_search_satisfying_rec(
                    store@,
                    self@,
                    layout@,
                    k as int,
                    idxs(ids@),
                ),
            decreases layout.0@.len() - k,
        {
            let ghost chosen = idxs(ids@);
            match self.search_feasible(store, &layout.0[k], &ids) {
                Some(i) => {
                    proof {
                        assert(layout@[k as int] == layout.0@[k as int]@);
                        assert(spec_search_satisfying_rec(store@, self@, layout@, k as int, chosen)
                            == spec_search_satisfying_rec(
                            store@,
                            self@,
                            layout@,
                            k as int + 1,
                            chosen.push(i as int),
                        ));
                    }
                    ids.push(i);
                    proof {
                        assert(idxs(ids@) =~= chosen.push(i as int));
                    }
                },
                None => {
                    proof {
                        assert(layout@[k as int] == layout.0@[k as int]@);
                        assert(spec_search_satisfying_rec(store@, self@, layout@, k as int, chosen)
                            is None);
                    }
                    return None;
                },
            }
            k = k + 1;
        }
        proof {
            assert(spec_search_satisfying_rec(store@, self@, layout@, k as int, idxs(ids@))
                == Some(idxs(ids@)));
        }
        Some(ids)
    }

    /// Feasibility check and consumption in one move: empty one slot per
    /// ingredient and hand the taken entities back, in ingredient order;
    /// on an infeasible layout nothing changes.
    pub fn take_satisfying_layout(&mut self, store: &ItemStore, layout: &ItemsLayout) -> (r:
        Option<Vec<EntityId>>)
        ensures
            match spec_search_satisfying(store@, old(self)@, layout@) {
                Some(ids) => {
                    &&& final(self)@ == spec_cleared(old(self)@, ids)
                    &&& r is Some
                    &&& r->Some_0@.len() == ids.len()
                    &&& forall|j: int|
                        0 <= j < ids.len() ==> #[trigger] r->Some_0@[j] == old(
                            self,
                        )@[ids[j]]->Some_0
                },
                None => final(self)@ == old(self)@ && r is None,
            },
    {
        let ghost inv0 = self@;
        match self.search_satisfying(store, layout) {
            Some(ids) => {
                proof {
                    lemma_search_satisfying_props(store@, inv0, layout@);
                }
                let ghost sids = idxs(ids@);
                let mut out: Vec<EntityId> = Vec::new();
                let mut j: usize = 0;
                proof {
                    assert(self@ =~= spec_cleared(inv0, sids.subrange(0, 0)));
                }
                while j < ids.len()
                    invariant
                        j <= ids@.len(),
                        out@.len() == j,
                        sids == idxs(ids@),
                        self@ == spec_cleared(inv0, sids.subrange(0, j as int)),
                        inv0.len() == self@.len(),
                        forall|j2: int|
                            0 <= j2 < ids@.len() ==> 0 <= sids[j2] < inv0.len()
                                && inv0[#[trigger] sids[j2]] is Some,
                        forall|j1: int, j2: int|
                            0 <= j1 < j2 < ids@.len() ==> #[trigger] sids[j1] != #[trigger] sids[j2],
                        forall|j2: int|
                            0 <= j2 < j ==> #[trigger] out@[j2] == inv0[sids[j2]]->Some_0,
                    decreases ids@.len() - j,
                {
                    let id = ids[j];
                    let ghost prev = self@;
                    proof {
                        assert(sids[j as int] == id as int);
                        assert(!sids.subrange(0, j as int).contains(sids[j as int]));
                        assert(prev[id as int] == inv0[id as int]);
                    }
                    match self.take(id) {
                        Some(e) => {
                            out.push(e);
                        },
                        None => {},
                    }
                    proof {
                        assert(self@ == prev.update(id as int, None));
                        assert(sids.subrange(0, j + 1)[j as int] == id as int);
                        assert(self@ =~= spec_cleared(inv0, sids.subrange(0, j + 1))) by {
                            assert forall|i: int| 0 <= i < inv0.len() implies self@[i]
                                == spec_cleared(inv0, sids.subrange(0, j + 1))[i] by {
                                if sids.subrange(0, j + 1).contains(i) {
                                    let w = choose|w: int|
                                        0 <= w < j + 1 && #[trigger] sids.subrange(0, j + 1)[w]
                                            == i;
                                    if w < j as int {
                                        assert(sids.subrange(0, j as int)[w] == i);
                                        assert(sids.subrange(0, j as int).contains(i));
                                    }
                                } else {
                                    assert(!sids.subrange(0, j as int).contains(i)) by {
                                        if sids.subrange(0, j as int).contains(i) {
                                            let w = choose|w: int|
                                                0 <= w < j && #[trigger] sids.subrange(
                                                    0,
                                                    j as int,
                                                )[w] == i;
                                            assert(sids.subrange(0, j + 1)[w] == i);
                                        }
                                    }
                                }
                            }
                        }
                    }
                    j = j + 1;
                }
                proof {
                    assert(sids.subrange(0, j as int) =~= sids);
                }
                Some(out)
            },
            None => None,
        }
    }

    /// Merge a layout of produced items into the inventory: same
    /// item-kind stacks accumulate by count, different kinds occupy
    /// separate, freshly spawned slots.
    pub fn add_combine(&mut self, store: &mut ItemStore, layout: &ItemsLayout)
        ensures
            (final(store)@, final(self)@) == spec_add_combine(
                old(store)@,
                old(self)@,
                layout@,
            ),
            inv_wf(old(store)@, old(self)@) ==> inv_wf(final(store)@, final(self)@),
    {
        let ghost s0 = store@;
        let ghost i0 = self@;
        let mut k: usize = 0;
        while k < layout.0.len()
            invariant
                k <= layout.0@.len(),
                layout@.len() == layout.0@.len(),
                (store@, self@) == spec_add_combine(s0, i0, layout@.subrange(0, k as int)),
                forall|j: int| 0 <= j < layout@.len() ==> layout@[j] == layout.0@[j]@,
                inv_wf(s0, i0) ==> inv_wf(store@, self@),
            decreases layout.0@.len() - k,
        {
            let ghost pre = layout@.subrange(0, k as int);
            let ghost sprev = store@;
            let ghost iprev = self@;
            let bundle = &layout.0[k];
            match self.search_item(store, &bundle.item) {
                Some(i) => {
                    proof {
                        lemma_first_from(
                            self@.len() as int,
                            slot_has_item(store@, self@, bundle.item@),
                            0,
                        );
                    }
                    match self.slots[i] {
                        Some(e) => {
                            store.saturating_increase_stack(e, bundle.stack.0);
                            proof {
                                if inv_wf(sprev, iprev) {
                                    assert forall|a: int|
                                        0 <= a < self@.len() && self@[a] is Some implies live(
                                        store@,
                                        #[trigger] self@[a]->Some_0,
                                    ) by {}
                                    assert(inv_wf(store@, self@));
                                }
                            }
                        },
                        None => {},
                    }
                },
                None => {
                    let e = store.spawn(bundle.duplicate());
                    self.add_single(e);
                    proof {
                        if inv_wf(sprev, iprev) {
                            assert forall|a: int|
                                0 <= a < self@.len() && self@[a] is Some implies live(
                                store@,
                                #[trigger] self@[a]->Some_0,
                            ) by {
                                if a < iprev.len() {
                                    assert(self@[a] == iprev[a]);
                                    assert(iprev[a]->Some_0.0 < sprev.len());
                                } else {
                                    assert(self@[a] == Some(e));
                                }
                            }
                            assert forall|a1: int, a2: int|
                                0 <= a1 < a2 < self@.len() && self@[a1] is Some
                                && self@[a2] is Some implies self@[a1]->Some_0 != (
                            #[trigger] self@[a2]->Some_0) by {
                                if a2 == iprev.len() {
                                    assert(self@[a1] == iprev[a1]);
                                    assert(iprev[a1]->Some_0.0 < sprev.len());
                                }
                            }
                            assert(inv_wf(store@, self@));
                        }
                    }
                },
            }
            proof {
                lemma_add_combine_snoc(s0, i0, pre, layout@[k as int]);
                assert(pre.push(layout@[k as int]) =~= layout@.subrange(0, k + 1));
            }
            k = k + 1;
        }
        proof {
            assert(layout@.subrange(0, k as int) =~= layout@);
        }
    }

    /// First slot that can cover the removal of `b`.
    fn search_removable(&self, store: &ItemStore, b: &ItemBundle) -> (r: Option<usize>)
        ensures
            match r {
                Some(i) => first_from(self@.len() as int, slot_removable(store@, self@, b@), 0)
                    == Some(i as int),
                None => first_from(
                    self@.len() as int,
                    slot_removable(store@, self@, b@),
                    0,
                ) is None,
            },
    {
        let ghost pred = slot_removable(store@, self@, b@);
        proof {
            lemma_first_from(self@.len() as int, pred, 0);
        }
        let mut i: usize = 0;
        while i < self.slots.len()
            invariant
                i <= self@.len(),
                pred == slot_removable(store@, self@, b@),
                forall|j: int| 0 <= j < i ==> !(#[trigger] pred(j)),
            decreases self@.len() - i,
        {
            match &self.slots[i] {
                Some(e) => {
                    match store.get(*e) {
                        Some(cur) => {
                            if crate::item::item_eq(&cur.item, &b.item) && cur.stack.0 >= b.stack.0 {
                                proof {
                                    assert(pred(i as int));
                                    lemma_first_from(self@.len() as int, pred, 0);
                                    match first_from(self@.len() as int, pred, 0) {
                                        Some(k) => {
                                            if k < i as int {
                                                assert(!pred(k));
                                            }
                                        },
                                        None => {
                                            assert(!pred(i as int));
                                        },
                                    }
                                }
                                return Some(i);
                            }
                        },
                        None => {},
                    }
                },
                None => {},
            }
            proof {
                assert(!pred(i as int));
            }
            i = i + 1;
        }
        None
    }

    /// Undo one bundle's worth of items: decrement the first sufficient
    /// stack of the same item, clearing slot and entity when it reaches
    /// zero. Reports whether anything was removed; an insufficient or
    /// absent stack leaves everything unchanged.
    pub fn remove_combine(&mut self, store: &mut ItemStore, bundle: &ItemBundle) -> (ok: bool)
        ensures
            (final(store)@, final(self)@, ok) == spec_remove_combine(
                old(store)@,
                old(self)@,
                bundle@,
            ),
            inv_wf(old(store)@, old(self)@) ==> inv_wf(final(store)@, final(self)@),
    {
        let ghost s0 = store@;
        let ghost i0 = self@;
        match self.search_removable(store, bundle) {
            Some(i) => {
                proof {
                    lemma_first_from(
                        self@.len() as int,
                        slot_removable(store@, self@, bundle@),
                        0,
                    );
                }
                match self.slots[i] {
                    Some(e) => {
                        let cur_stack = match store.get(e) {
                            Some(b) => b.stack.0,
                            None => 0,
                        };
                        if cur_stack == bundle.stack.0 {
                            store.despawn(e);
                            self.slots.set(i, None);
                            proof {
                                if inv_wf(s0, i0) {
                                    assert forall|a: int|
                                        0 <= a < self@.len() && self@[a] is Some implies live(
                                        store@,
                                        #[trigger] self@[a]->Some_0,
                                    ) by {
                                        assert(self@[a] == i0[a]);
                                        if a < i as int {
                                            assert(i0[a]->Some_0 != i0[i as int]->Some_0);
                                        } else {
                                            assert(a != i as int);
                                            assert(i0[i as int]->Some_0 != i0[a]->Some_0);
                                        }
                                    }
                                    assert(inv_wf(store@, self@));
                                }
                            }
                        } else {
                            store.decrease_stack(e, bundle.stack.0);
                            proof {
                                if inv_wf(s0, i0) {
                                    assert forall|a: int|
                                        0 <= a < self@.len() && self@[a] is Some implies live(
                                        store@,
                                        #[trigger] self@[a]->Some_0,
                                    ) by {}
                                    assert(inv_wf(store@, self@));
                                }
                            }
                        }
                        true
                    },
                    None => false,
                }
            },
            None => false,
        }
    }

    /// Append every bundle of a layout as its own freshly spawned slot,
    /// without merging.
    pub fn add(&mut self, store: &mut ItemStore, layout: &ItemsLayout)
        ensures
            final(store)@ == old(store)@ + Seq::new(layout@.len(), |j: int| Some(layout@[j])),
            final(self)@ == old(self)@ + Seq::new(
                layout@.len(),
                |j: int| Some(EntityId((old(store)@.len() + j) as u64)),
            ),
    {
        let ghost s0 = store@;
        let ghost i0 = self@;
        let mut k: usize = 0;
        while k < layout.0.len()
            invariant
                k <= layout.0@.len(),
                layout@.len() == layout.0@.len(),
                store@ == s0 + Seq::new(k as nat, |j: int| Some(layout@[j])),
                self@ == i0 + Seq::new(k as nat, |j: int| Some(EntityId((s0.len() + j) as u64))),
                forall|j: int| 0 <= j < layout@.len() ==> layout@[j] == layout.0@[j]@,
            decreases layout.0@.len() - k,
        {
            let bundle = &layout.0[k];
            let e = store.spawn(bundle.duplicate());
            self.add_single(e);
            proof {
                assert(store@ =~= s0 + Seq::new((k + 1) as nat, |j: int| Some(layout@[j])));
                assert(self@ =~= i0 + Seq::new(
                    (k + 1) as nat,
                    |j: int| Some(EntityId((s0.len() + j) as u64)),
                ));
            }
            k = k + 1;
        }
        proof {
            assert(Seq::new(layout@.len(), |j: int| Some(layout@[j])) =~= Seq::new(
                k as nat,
                |j: int| Some(layout@[j]),
            ));
            assert(Seq::new(layout@.len(), |j: int| Some(EntityId((s0.len() + j) as u64)))
                =~= Seq::new(k as nat, |j: int| Some(EntityId((s0.len() + j) as u64))));
        }
    }

    /// Remove the first slot holding `entity`; the slot becomes a hole.
    pub fn take_linear(&mut self, entity: EntityId) -> (r: Option<EntityId>)
        ensures
            (final(self)@, r) == spec_take_linear(old(self)@, entity),
    {
        let ghost inv0 = self@;
        match self.search(entity) {
            Some(i) => {
                proof {
                    lemma_first_from(inv0.len() as int, slot_holds(inv0, entity), 0);
                }
                let r = self.take(i);
                proof {
                    assert(inv0[i as int] == Some(entity));
                }
                r
            },
            None => None,
        }
    }
}

} // verus!
