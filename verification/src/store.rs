//! The item-entity store: the shared arena that holds one [`ItemBundle`]
//! per live item entity. The surrounding engine owns the real store; the
//! core works against this plain-value model of it, so every inventory
//! operation that inspects or mutates an item entity goes through the
//! accessors here.

use vstd::prelude::*;

use crate::item::{BundleView, ItemBundle, ItemStack};

verus! {

/// Reference to one item-stack entity in the store.
#[derive(Clone, Copy, PartialEq, Eq, Structural, Debug, Hash)]
pub struct EntityId(pub u64);

/// Arena of item entities. A despawned entity leaves a hole; identifiers
/// are never reused, so a stale reference can be told apart from a live
/// one.
#[derive(Debug)]
pub struct ItemStore {
    pub entries: Vec<Option<ItemBundle>>,
}

/// The entity is present in the store.
pub open spec fn live(s: Seq<Option<BundleView>>, e: EntityId) -> bool {
    e.0 < s.len() && s[e.0 as int] is Some
}

/// The bundle a live entity carries.
pub open spec fn bundle_at(s: Seq<Option<BundleView>>, e: EntityId) -> BundleView {
    s[e.0 as int]->Some_0
}

impl View for ItemStore {
    type V = Seq<Option<BundleView>>;

    open spec fn view(&self) -> Seq<Option<BundleView>> {
        Seq::new(
            self.entries@.len(),
            |i: int|
                match self.entries@[i] {
                    Some(b) => Some(b@),
                    None => None,
                },
        )
    }
}

impl ItemStore {
    pub fn new() -> (r: Self)
        ensures
            r@ == Seq::<Option<BundleView>>::empty(),
    {
        let r = ItemStore { entries: Vec::new() };
        proof {
            assert(r@ =~= Seq::<Option<BundleView>>::empty());
        }
        r
    }

    /// Create a new item entity carrying `bundle`; its identifier is fresh.
    pub fn spawn(&mut self, bundle: ItemBundle) -> (e: EntityId)
        ensures
            final(self)@ =~= old(self)@.push(Some(bundle@)),
            e.0 == old(self)@.len(),
    {
        let e = EntityId(self.entries.len() as u64);
        self.entries.push(Some(bundle));
        e
    }

    /// Look an entity up; `None` for a hole or an identifier never issued.
    pub fn get(&self, e: EntityId) -> (r: Option<&ItemBundle>)
        ensures
            r is Some <==> live(self@, e),
            r is Some ==> r->Some_0@ == bundle_at(self@, e),
    {
        if e.0 < self.entries.len() as u64 {
            match &self.entries[e.0 as usize] {
                Some(b) => Some(b),
                None => None,
            }
        } else {
            None
        }
    }

    /// Raise a live entity's stack count by `extra`.
    pub fn increase_stack(&mut self, e: EntityId, extra: u8)
        requires
            live(old(self)@, e),
            bundle_at(old(self)@, e).stack + extra <= u8::MAX,
        ensures
            final(self)@ =~= old(self)@.update(
                e.0 as int,
                Some(
                    BundleView {
                        item: bundle_at(old(self)@, e).item,
                        stack: (bundle_at(old(self)@, e).stack + extra) as u8,
                    },
                ),
            ),
    {
        let n = self.entries.len();
        proof {
            assert(self@.len() == n);
            assert(self@[e.0 as int] is Some);
        }
        let i = e.0 as usize;
        match &self.entries[i] {
            Some(b) => {
                let nb = ItemBundle { item: b.item.duplicate(), stack: ItemStack(b.stack.0 + extra) };
                self.entries.set(i, Some(nb));
            },
            None => {},
        }
    }

    /// Raise a live entity's stack count by `extra`, stopping at the
    /// counter's ceiling: stack counts have no game-rule maximum, so an
    /// addition that would not fit the counter clamps instead of failing.
    pub fn saturating_increase_stack(&mut self, e: EntityId, extra: u8)
        requires
            live(old(self)@, e),
        ensures
            final(self)@ =~= old(self)@.update(
                e.0 as int,
                Some(
                    BundleView {
                        item: bundle_at(old(self)@, e).item,
                        stack: if bundle_at(old(self)@, e).stack + extra <= u8::MAX {
                            (bundle_at(old(self)@, e).stack + extra) as u8
                        } else {
                            u8::MAX
                        },
                    },
                ),
            ),
    {
        let n = self.entries.len();
        proof {
            assert(self@.len() == n);
            assert(self@[e.0 as int] is Some);
        }
        let i = e.0 as usize;
        match &self.entries[i] {
            Some(b) => {
                let cur = b.stack.0;
                let ns = if extra <= u8::MAX - cur {
                    cur + extra
                } else {
                    u8::MAX
                };
                let nb = ItemBundle { item: b.item.duplicate(), stack: ItemStack(ns) };
                self.entries.set(i, Some(nb));
            },
            None => {},
        }
    }

    /// Lower a live entity's stack count by `by`; the feasibility check
    /// has already ruled underflow out.
    pub fn decrease_stack(&mut self, e: EntityId, by: u8)
        requires
            live(old(self)@, e),
            bundle_at(old(self)@, e).stack >= by,
        ensures
            final(self)@ =~= old(self)@.update(
                e.0 as int,
                Some(
                    BundleView {
                        item: bundle_at(old(self)@, e).item,
                        stack: (bundle_at(old(self)@, e).stack - by) as u8,
                    },
                ),
            ),
    {
        let n = self.entries.len();
        proof {
            assert(self@.len() == n);
            assert(self@[e.0 as int] is Some);
        }
        let i = e.0 as usize;
        match &self.entries[i] {
            Some(b) => {
                let nb = ItemBundle { item: b.item.duplicate(), stack: ItemStack(b.stack.0 - by) };
                self.entries.set(i, Some(nb));
            },
            None => {},
        }
    }

    /// Destroy a live entity, leaving a hole so identifiers stay stable.
    pub fn despawn(&mut self, e: EntityId)
        requires
            live(old(self)@, e),
        ensures
            final(self)@ =~= old(self)@.update(e.0 as int, None),
    {
        let n = self.entries.len();
        proof {
            assert(self@.len() == n);
        }
        let i = e.0 as usize;
        self.entries.set(i, None);
    }
}

} // verus!
