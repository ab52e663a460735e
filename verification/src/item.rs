//! Items: immutable goods identified by a display name, carrying a unit
//! price in minor currency units and a tax category. Two items are equal
//! exactly when their names match; price and tax play no part in equality.

use vstd::prelude::*;

use crate::tax::Tax;

verus! {

/// The mathematical content of an [`Item`]: its name as a sequence of
/// characters, its unit price in minor units, and its tax category.
pub ghost struct ItemModel {
    pub id: Seq<char>,
    pub price: u32,
    pub tax: Tax,
}

/// An Item is a good that can be bought.
#[derive(Debug, Clone)]
pub struct Item {
    id: String,
    price: u32,
    tax: Tax,
}

impl View for Item {
    type V = ItemModel;

    closed spec fn view(&self) -> ItemModel {
        ItemModel { id: self.id@, price: self.price, tax: self.tax }
    }
}

impl Item {
    /// Create a new Item.
    pub fn new(id: &str, price: u32, tax: Tax) -> (item: Item)
        ensures
            item@ == (ItemModel { id: id@, price, tax }),
    {
        Item { id: id.to_owned(), price, tax }
    }

    /// Return this Item's id.
    pub fn id(&self) -> (r: &str)
        ensures
            r@ == self@.id,
    {
        self.id.as_str()
    }

    /// Return this Item's price.
    pub fn price(&self) -> (r: u32)
        ensures
            r == self@.price,
    {
        self.price
    }

    /// Return this Item's applicable tax.
    pub fn tax(&self) -> (r: Tax)
        ensures
            r == self@.tax,
    {
        self.tax
    }
}

impl PartialEq for Item {
    /// Items are compared by name alone.
    fn eq(&self, other: &Item) -> (r: bool) {
        self.id == other.id
    }
}

impl Eq for Item {}

impl vstd::std_specs::cmp::PartialEqSpecImpl for Item {
    open spec fn obeys_eq_spec() -> bool {
        true
    }

    open spec fn eq_spec(&self, other: &Item) -> bool {
        self@.id == other@.id
    }
}

} // verus!
