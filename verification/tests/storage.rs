//! The storage layer at work: columns, tables, removal, relocation, and
//! the signature-keyed table registry.

use light::component::{ComponentDescriptor, ComponentId, TypeKey};
use light::entity::Entity;
use light::storage::blobvec::{array_layout, padding_needed_for, BlobVec, TypeLayout};
use light::storage::table::{Table, Tables};

fn descriptor(index: usize, key: u64, size: usize, align: usize) -> ComponentDescriptor {
    ComponentDescriptor::of(ComponentId::from_index(index), TypeKey(key), TypeLayout::new(size, align))
}

fn cell(value: u64) -> Vec<u8> {
    value.to_le_bytes().to_vec()
}

#[test]
fn register_and_get_component() {

}

#[test]
fn blobvec_push_init_read() {
    let mut column = BlobVec::new(TypeLayout::new(8, 8), 0);
    let first = column.push_uninit();
    let second = column.push_uninit();
    assert_eq!(first, 0);
    assert_eq!(second, 1);
    assert_eq!(column.items_len(), 2);
    assert_eq!(column.len(), 16);

    column.init_unchecked(0, &cell(11));
    column.init_unchecked(1, &cell(22));
    assert_eq!(column.get_unchecked(0), cell(11));
    assert_eq!(column.get_unchecked(1), cell(22));
}

#[test]
fn blobvec_zero_sized_items() {
    let mut column = BlobVec::new(TypeLayout::new(0, 1), 4);
    assert_eq!(column.capacity(), usize::MAX);
    assert_eq!(column.item_capacity(), usize::MAX);
    let row = column.push_uninit();
    assert_eq!(row, 0);
    assert_eq!(column.items_len(), 1);
    assert_eq!(column.len(), 0);
}

#[test]
fn destructor_runs_once_per_replaced_or_removed_cell() {
    let mut column = BlobVec::new(TypeLayout::new(8, 8), 0);
    let row = column.push_uninit();
    assert_eq!(column.drop_invocations(), 0);

    column.init_unchecked(row, &cell(1));
    assert_eq!(column.drop_invocations(), 0);

    column.replace_unchecked(row, &cell(2));
    assert_eq!(column.drop_invocations(), 1);

    let _ = column.push_uninit();
    column.init_unchecked(1, &cell(3));
    let taken = column.swap_remove_and_forget_unchecked(0);
    assert_eq!(taken, cell(2));
    assert_eq!(column.drop_invocations(), 1);

    column.swap_remove_and_drop_unchecked(0);
    assert_eq!(column.drop_invocations(), 2);
}

#[test]
fn layout_math() {
    let layout = TypeLayout::new(12, 8);
    assert_eq!(padding_needed_for(&layout, 8), 4);
    let arr = array_layout(&layout, 3).unwrap();
    assert_eq!(arr.size, 48);
    assert_eq!(arr.align, 8);
}

#[test]
fn add_row_keeps_columns_in_lockstep() {
    let mut table = Table::new();
    table.add_column(&descriptor(0, 100, 8, 8));
    table.add_column(&descriptor(1, 101, 4, 4));

    let r0 = table.add_row(Entity::new(0, 0));
    let r1 = table.add_row(Entity::new(1, 0));
    assert_eq!(r0, 0);
    assert_eq!(r1, 1);
    assert_eq!(table.len(), 2);
    assert_eq!(
        table.get_column(&ComponentId::from_index(0)).unwrap().items_len(),
        table.len(),
    );
    assert_eq!(
        table.get_column(&ComponentId::from_index(1)).unwrap().items_len(),
        table.len(),
    );
}

#[test]
fn swap_remove_reports_relocated_entity() {
    let mut table = Table::new();
    table.add_column(&descriptor(0, 100, 8, 8));
    table.add_row(Entity::new(10, 0));
    table.add_row(Entity::new(11, 0));
    table.add_row(Entity::new(12, 0));

    let swapped = table.swap_remove_and_drop_unchecked(0);
    assert_eq!(table.len(), 2);
    assert_eq!(swapped, Some(Entity::new(12, 0)));
    assert_eq!(table.entity_at(0), Entity::new(12, 0));

    let last = table.swap_remove_and_drop_unchecked(1);
    assert_eq!(last, None);
    assert_eq!(table.len(), 1);
}

#[test]
fn move_row_policies() {
    let health = descriptor(0, 100, 8, 8);
    let mana = descriptor(1, 101, 8, 8);

    let mut source = Table::new();
    source.add_column(&health);
    source.add_column(&mana);
    let row = source.add_row(Entity::new(0, 0));
    source.get_column_mut(&ComponentId::from_index(0)).unwrap().init_unchecked(row, &cell(7));
    source.get_column_mut(&ComponentId::from_index(1)).unwrap().init_unchecked(row, &cell(9));

    // The destination lacks the second column: dropping the missing one
    // runs its destructor exactly once.
    let mut narrower = Table::new();
    narrower.add_column(&health);
    let result = source.move_row_drop_missing_unchecked(row, &mut narrower);
    assert_eq!(result.moved_row, 0);
    assert!(result.swapped_entity.is_none());
    assert_eq!(source.len(), 0);
    assert_eq!(narrower.len(), 1);
    assert_eq!(
        narrower.get_column(&ComponentId::from_index(0)).unwrap().get_unchecked(0),
        cell(7),
    );
    assert_eq!(
        source.get_column(&ComponentId::from_index(1)).unwrap().drop_invocations(),
        1,
    );

    // Moving to a superset keeps every cell's bytes.
    let mut wider = Table::new();
    wider.add_column(&health);
    wider.add_column(&mana);
    let back = narrower.move_row_to_superset_unchecked(0, &mut wider);
    assert_eq!(back.moved_row, 0);
    assert_eq!(
        wider.get_column(&ComponentId::from_index(0)).unwrap().get_unchecked(0),
        cell(7),
    );
}

#[test]
fn signature_stability_over_insertion_order() {
    let health = descriptor(0, 100, 8, 8);
    let mana = descriptor(1, 101, 4, 4);

    let mut tables = Tables::new();
    let forward = tables.get_or_create_table(&vec![health, mana]);

    let health_again = descriptor(0, 100, 8, 8);
    let mana_again = descriptor(1, 101, 4, 4);
    let backward = tables.get_or_create_table(&vec![mana_again, health_again]);

    assert_eq!(forward, backward);
    assert_eq!(tables.len(), 1);

    let solitary = descriptor(0, 100, 8, 8);
    let other = tables.get_or_create_table(&vec![solitary]);
    assert_ne!(other, forward);
    assert_eq!(tables.len(), 2);
}

#[test]
fn bitmask_marks_exactly_the_component_id() {
    let d = descriptor(3, 100, 8, 8);
    assert!(d.marks(3));
    assert!(!d.marks(2));
    assert!(!d.marks(4));
    assert!(d.is_for(TypeKey(100)));
    assert!(!d.is_for(TypeKey(101)));
}

#[test]
fn forget_missing_abandons_without_destructor() {
    let health = descriptor(0, 100, 8, 8);
    let mana = descriptor(1, 101, 8, 8);

    let mut source = Table::new();
    source.add_column(&health);
    source.add_column(&mana);
    let row = source.add_row(Entity::new(0, 0));
    source.get_column_mut(&ComponentId::from_index(0)).unwrap().init_unchecked(row, &cell(7));
    source.get_column_mut(&ComponentId::from_index(1)).unwrap().init_unchecked(row, &cell(9));

    let mut narrower = Table::new();
    narrower.add_column(&descriptor(0, 100, 8, 8));
    let result = source.move_row_forget_missing_unchecked(row, &mut narrower);
    assert_eq!(result.moved_row, 0);

    // The abandoned cell's destructor never ran: the deliberate escape
    // hatch of this relocation policy.
    assert_eq!(
        source.get_column(&ComponentId::from_index(1)).unwrap().drop_invocations(),
        0,
    );
}

#[test]
fn duplicate_ids_share_one_signature() {
    let mut tables = Tables::new();
    let once = tables.get_or_create_table(&vec![descriptor(0, 100, 8, 8)]);
    let doubled = tables.get_or_create_table(&vec![
        descriptor(0, 100, 8, 8),
        descriptor(0, 100, 8, 8),
    ]);
    assert_eq!(once, doubled);
    assert_eq!(tables.len(), 1);
}
