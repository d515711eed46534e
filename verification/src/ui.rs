//! Plain data behind the debug windows: which windows are open, and the
//! name a window is registered under. The windows themselves are engine
//! UI and stay outside the core.

use vstd::prelude::*;

verus! {

/// The registry key of one inspector window.
#[derive(Clone, Copy, Debug, Hash)]
pub struct WindowName(pub &'static str);

impl WindowName {
    pub fn new(name: &'static str) -> (r: Self)
        ensures
            r.0 == name,
    {
        WindowName(name)
    }

    pub fn get(&self) -> (r: &'static str)
        ensures
            r == self.0,
    {
        self.0
    }
}

/// Which of the crafting-related windows are open; every one starts
/// open.
#[derive(Clone, Copy, PartialEq, Eq, Structural, Debug)]
pub struct WindowContext {
    pub workbench_window: bool,
    pub inventory_window: bool,
    pub enchantment_window: bool,
    pub add_item_window: bool,
}

impl Default for WindowContext {
    fn default() -> (r: Self)
        ensures
            r.workbench_window && r.inventory_window && r.enchantment_window && r.add_item_window,
    {
        WindowContext {
            workbench_window: true,
            inventory_window: true,
            enchantment_window: true,
            add_item_window: true,
        }
    }
}

} // verus!
