//! Per-holder inventories of item entities.

use vstd::prelude::*;

verus! {

/// An ordered collection of item entities; the front is the next item the
/// player places, new items join at the back.
#[derive(Clone, Debug)]
pub struct Inventory {
    pub items: Vec<u64>,
}

impl Inventory {
    /// An inventory with no items.
    pub fn new() -> (r: Inventory)
        ensures
            r.items@ == Seq::<u64>::empty(),
    {
        Inventory { items: Vec::new() }
    }

    /// The front item, if any.
    pub fn front(&self) -> (r: Option<u64>)
        ensures
            self.items@.len() == 0 ==> r is None,
            self.items@.len() > 0 ==> r == Some(self.items@[0]),
    {
        if self.items.len() == 0 {
            None
        } else {
            Some(self.items[0])
        }
    }
}

/// One inventory together with the entity that holds it.
#[derive(Clone, Debug)]
pub struct InventorySlot {
    pub holder: u64,
    pub inventory: Inventory,
}

/// What a slot looks like in contracts.
#[verifier::ext_equal]
pub ghost struct SlotModel {
    pub holder: u64,
    pub items: Seq<u64>,
}

impl View for InventorySlot {
    type V = SlotModel;

    open spec fn view(&self) -> SlotModel {
        SlotModel { holder: self.holder, items: self.inventory.items@ }
    }
}

} // verus!
