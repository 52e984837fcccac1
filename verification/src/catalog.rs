//! The fixed, ordered catalog of sellable items.

use vstd::prelude::*;

verus! {

/// One sellable item of the stall's fixed catalog.
#[derive(Clone, Copy, PartialEq, Eq, Structural, Debug)]
pub enum ItemName {
    Plain,
    Chocolate,
    Strawberry,
    Honey,
    Cinnamon,
}

/// The catalog in its declaration order, which is also the display order.
pub open spec fn catalog() -> Seq<ItemName> {
    seq![
        ItemName::Plain,
        ItemName::Chocolate,
        ItemName::Strawberry,
        ItemName::Honey,
        ItemName::Cinnamon,
    ]
}

/// The catalog items in declaration order, for iteration by displays.
pub fn catalog_items() -> (r: Vec<ItemName>)
    ensures
        r@ == catalog(),
{
    let items = vec![
        ItemName::Plain,
        ItemName::Chocolate,
        ItemName::Strawberry,
        ItemName::Honey,
        ItemName::Cinnamon,
    ];
    proof {
        assert(items@ =~= catalog());
    }
    items
}

} // verus!
