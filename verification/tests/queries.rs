use food_tally::catalog::{catalog_items, ItemName};
use food_tally::events::Event;
use food_tally::ledger::{count_units_of, find_last_checkpoint, reconstruct_units, SalesLedger};

#[test]
fn catalog_is_the_five_items_in_declaration_order() {
    let items = catalog_items();
    assert_eq!(
        items,
        vec![
            ItemName::Plain,
            ItemName::Chocolate,
            ItemName::Strawberry,
            ItemName::Honey,
            ItemName::Cinnamon,
        ]
    );
}

#[test]
fn order_count_after_sale_sale_checkpoint_sale_is_one() {
    let mut l = SalesLedger::new();
    l.record_sale_at(ItemName::Plain, 1, 1);
    l.record_sale_at(ItemName::Plain, 1, 2);
    l.reset();
    l.record_sale_at(ItemName::Chocolate, 1, 3);
    assert_eq!(l.ordered_sale_count_since_last_checkpoint(), 1);
}

#[test]
fn order_count_with_no_checkpoint_counts_every_sale() {
    let mut l = SalesLedger::new();
    assert_eq!(l.ordered_sale_count_since_last_checkpoint(), 0);
    l.record_sale_at(ItemName::Plain, 3, 1);
    l.record_sale_at(ItemName::Honey, 0, 2);
    assert_eq!(l.ordered_sale_count_since_last_checkpoint(), 2);
    l.reset();
    assert_eq!(l.ordered_sale_count_since_last_checkpoint(), 0);
}

#[test]
fn per_item_counts_follow_sales_reset_and_undo() {
    let mut l = SalesLedger::new();
    l.record_sale_at(ItemName::Plain, 3, 1);
    assert_eq!(l.active_units.len(), 3);
    assert_eq!(counts_of(&l), [3, 0, 0, 0, 0]);
    l.record_sale_at(ItemName::Chocolate, 2, 2);
    assert_eq!(counts_of(&l), [3, 2, 0, 0, 0]);
    l.reset();
    assert_eq!(counts_of(&l), [0, 0, 0, 0, 0]);
    assert_eq!(l.log.len(), 3);
    l.undo();
    assert_eq!(counts_of(&l), [3, 2, 0, 0, 0]);
    assert_eq!(l.log.len(), 2);
}

#[test]
fn undo_after_two_sales_leaves_only_the_first() {
    let mut l = SalesLedger::new();
    l.record_sale_at(ItemName::Plain, 3, 1);
    l.record_sale_at(ItemName::Chocolate, 2, 2);
    l.undo();
    assert_eq!(l.active_units.len(), 3);
    assert!(l.active_units.iter().all(|u| u.name == ItemName::Plain));
    assert_eq!(counts_of(&l), [3, 0, 0, 0, 0]);
}

#[test]
fn per_item_counts_keep_catalog_order_and_cover_every_item() {
    let mut l = SalesLedger::new();
    l.record_sale_at(ItemName::Cinnamon, 1, 1);
    l.record_sale_at(ItemName::Strawberry, 4, 2);
    let counts = l.per_item_counts();
    let items = catalog_items();
    assert_eq!(counts.len(), items.len());
    for (entry, item) in counts.iter().zip(items.iter()) {
        assert_eq!(entry.0, *item);
    }
    assert_eq!(counts_of(&l), [0, 0, 4, 0, 1]);
}

#[test]
fn count_units_of_counts_only_the_named_item() {
    let mut l = SalesLedger::new();
    l.record_sale_at(ItemName::Honey, 2, 1);
    l.record_sale_at(ItemName::Plain, 1, 2);
    assert_eq!(count_units_of(&l.active_units, ItemName::Honey), 2);
    assert_eq!(count_units_of(&l.active_units, ItemName::Plain), 1);
    assert_eq!(count_units_of(&l.active_units, ItemName::Chocolate), 0);
}

#[test]
fn last_checkpoint_index_names_the_latest_checkpoint() {
    let mut l = SalesLedger::new();
    assert_eq!(l.last_checkpoint_index(), None);
    l.record_sale_at(ItemName::Plain, 1, 1);
    assert_eq!(l.last_checkpoint_index(), None);
    l.reset();
    assert_eq!(l.last_checkpoint_index(), Some(1));
    l.record_sale_at(ItemName::Plain, 1, 2);
    l.reset();
    assert_eq!(l.last_checkpoint_index(), Some(3));
    assert_eq!(find_last_checkpoint(&l.log), Some(3));
}

#[test]
fn reconstruction_from_the_log_matches_the_live_tally() {
    let mut l = SalesLedger::new();
    l.record_sale_at(ItemName::Plain, 2, 1);
    l.reset();
    l.record_sale_at(ItemName::Honey, 3, 2);
    l.record_sale_at(ItemName::Chocolate, 0, 3);
    l.record_sale_at(ItemName::Cinnamon, 1, 4);
    l.undo();
    assert_eq!(reconstruct_units(&l.log), l.active_units);
}

#[test]
fn reconstruction_of_a_log_without_checkpoints_flattens_every_sale() {
    let mut l = SalesLedger::new();
    l.record_sale_at(ItemName::Plain, 2, 1);
    l.record_sale_at(ItemName::Honey, 1, 2);
    let rebuilt = reconstruct_units(&l.log);
    assert_eq!(rebuilt, l.active_units);
    assert_eq!(rebuilt.len(), 3);
    assert_eq!(reconstruct_units(&Vec::<Event>::new()), Vec::new());
}

fn counts_of(l: &SalesLedger) -> [usize; 5] {
    let counts = l.per_item_counts();
    let mut out = [0usize; 5];
    for (i, (_, c)) in counts.iter().enumerate() {
        out[i] = *c;
    }
    out
}
