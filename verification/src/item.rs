//! The item model: an item's identity (name, kind, level) and the stack
//! count attached to one inventory slot.

use vstd::prelude::*;
use vstd::string::StringExecFns;

verus! {

/// Extra behaviour attached to a complex item. The set of properties is an
/// open extension point; today it carries no data.
#[derive(Clone, Copy, PartialEq, Eq, Structural, Debug, Hash)]
pub struct ItemProperties {}

/// Whether an item is a plain material or carries properties of its own.
#[derive(Clone, Copy, PartialEq, Eq, Structural, Debug, Hash)]
pub enum ItemKind {
    Complex(ItemProperties),
    Primitive,
}

impl Default for ItemKind {
    fn default() -> (r: Self)
        ensures
            r == ItemKind::Primitive,
    {
        ItemKind::Primitive
    }
}

/// Mathematical value of an [`Item`]: the name as a character sequence
/// together with the kind and level.
pub struct ItemView {
    pub name: Seq<char>,
    pub kind: ItemKind,
    pub level: u8,
}

/// An item's identity. Two items are the same iff name, kind and level all
/// compare equal; an `Item` is immutable once created.
#[derive(Clone, Debug, Hash)]
pub struct Item {
    pub name: String,
    pub kind: ItemKind,
    pub level: u8,
}

impl View for Item {
    type V = ItemView;

    open spec fn view(&self) -> ItemView {
        ItemView { name: self.name@, kind: self.kind, level: self.level }
    }
}

impl PartialEq for Item {
    fn eq(&self, other: &Self) -> (r: bool) {
        self.name == other.name && self.kind == other.kind && self.level == other.level
    }
}

impl vstd::std_specs::cmp::PartialEqSpecImpl for Item {
    open spec fn obeys_eq_spec() -> bool {
        true
    }

    open spec fn eq_spec(&self, other: &Self) -> bool {
        self@ == other@
    }
}

impl Eq for Item {}

impl Default for Item {
    /// The placeholder item used when nothing more specific is asked for.
    fn default() -> (r: Self)
        ensures
            r@ == (ItemView { name: "TestItem"@, kind: ItemKind::Primitive, level: 1 }),
    {
        Item { name: String::from_str("TestItem"), kind: ItemKind::Primitive, level: 1 }
    }
}

/// How many copies of one item occupy one inventory slot.
#[derive(Clone, Copy, PartialEq, Eq, Structural, Debug, Hash)]
pub struct ItemStack(pub u8);

impl Default for ItemStack {
    fn default() -> (r: Self)
        ensures
            r == ItemStack(1),
    {
        ItemStack(1)
    }
}

/// Mathematical value of an [`ItemBundle`].
pub struct BundleView {
    pub item: ItemView,
    pub stack: u8,
}

/// The pairing of an item with its stack count: what one occupied
/// inventory slot refers to, and what gets spawned as one entity.
#[derive(Clone, Debug)]
pub struct ItemBundle {
    pub item: Item,
    pub stack: ItemStack,
}

impl View for ItemBundle {
    type V = BundleView;

    open spec fn view(&self) -> BundleView {
        BundleView { item: self.item@, stack: self.stack.0 }
    }
}

impl Item {
    /// An owned copy with a contract; a derived `Clone` on a
    /// `String`-carrying type says nothing to the verifier.
    pub fn duplicate(&self) -> (r: Self)
        ensures
            r == *self,
    {
        Item { name: self.name.clone(), kind: self.kind, level: self.level }
    }
}

impl ItemBundle {
    /// An owned copy with a contract, like [`Item::duplicate`].
    pub fn duplicate(&self) -> (r: Self)
        ensures
            r == *self,
    {
        ItemBundle { item: self.item.duplicate(), stack: self.stack }
    }

    pub fn as_tuple(&self) -> (r: (&Item, &ItemStack))
        ensures
            r.0@ == self@.item,
            r.1.0 == self@.stack,
    {
        (&self.item, &self.stack)
    }
}

/// Item description from the display-oriented side of the model: a name and
/// kind together with the modifiers shown to the player.
#[derive(Clone, Debug, Hash)]
pub struct ItemData {
    pub name: String,
    pub kind: ItemKind,
    pub modifiers: ItemModifiers,
}

impl Default for ItemData {
    fn default() -> (r: Self)
        ensures
            r.name@ == "TestItem"@,
            r.kind == ItemKind::Primitive,
            r.modifiers == (ItemModifiers { amount: 1, level: 1 }),
    {
        ItemData {
            name: String::from_str("TestItem"),
            kind: ItemKind::Primitive,
            modifiers: ItemModifiers { amount: 1, level: 1 },
        }
    }
}

/// Display modifiers of an [`ItemData`] entry.
#[derive(Clone, Copy, PartialEq, Eq, Structural, Debug, Hash)]
pub struct ItemModifiers {
    pub amount: u8,
    pub level: u8,
}

impl Default for ItemModifiers {
    fn default() -> (r: Self)
        ensures
            r == (ItemModifiers { amount: 1, level: 1 }),
    {
        ItemModifiers { amount: 1, level: 1 }
    }
}

/// Two item identities are interchangeable for stacking and recipe
/// matching iff they agree on name, kind and level.
pub open spec fn same_item(a: ItemView, b: ItemView) -> bool {
    a == b
}

/// An inventory slot can serve as an ingredient of this name and kind; the
/// level does not take part in feasibility matching.
pub open spec fn same_ingredient(a: ItemView, b: ItemView) -> bool {
    a.name == b.name && a.kind == b.kind
}

/// Executable test of [`same_item`].
pub fn item_eq(a: &Item, b: &Item) -> (r: bool)
    ensures
        r == same_item(a@, b@),
{
    a.name == b.name && a.kind == b.kind && a.level == b.level
}

/// Executable test of [`same_ingredient`].
pub fn ingredient_eq(a: &Item, b: &Item) -> (r: bool)
    ensures
        r == same_ingredient(a@, b@),
{
    a.name == b.name && a.kind == b.kind
}

} // verus!
