use synthizer::drop_table::DropTable;

#[test]
fn insert_mark_and_remove() {
    let mut table: DropTable<&'static str> = DropTable::new();
    table.insert(1, "a");
    table.insert(2, "b");
    table.insert(3, "c");
    assert!(table.contains(2));
    table.mark_pending_drop(2);
    assert_eq!(table.dropped().as_slice(), &[2]);
    let removed = table.remove_dropped();
    assert_eq!(removed.len(), 1);
    assert_eq!(removed[0].id, 2);
    assert_eq!(removed[0].value, "b");
    assert!(!table.contains(2));
    assert!(table.contains(1) && table.contains(3));
}

#[test]
fn insert_replaces_in_place() {
    let mut table: DropTable<u32> = DropTable::new();
    table.insert(7, 1);
    table.mark_pending_drop(7);
    table.insert(7, 2);
    assert!(table.dropped().is_empty());
    assert!(table.remove_dropped().is_empty());
    assert!(table.contains(7));
}

#[test]
fn at_most_sixteen_removed_per_batch() {
    let mut table: DropTable<u64> = DropTable::new();
    for id in 0..40u64 {
        table.insert(id, id * 10);
        table.mark_pending_drop(id);
    }
    let first = table.remove_dropped();
    assert_eq!(first.iter().map(|e| e.id).collect::<Vec<_>>(), (0..16).collect::<Vec<_>>());
    assert_eq!(table.remove_dropped().len(), 16);
    assert_eq!(table.remove_dropped().len(), 8);
    assert!(table.remove_dropped().is_empty());
    assert!(!table.contains(39));
}

#[test]
fn marking_a_missing_entry_changes_nothing() {
    let mut table: DropTable<u8> = DropTable::new();
    table.insert(1, 1);
    table.mark_pending_drop(99);
    assert!(table.dropped().is_empty());
}

#[test]
fn replace_keeps_the_mark() {
    let mut table: DropTable<u32> = DropTable::new();
    table.insert(3, 30);
    table.mark_pending_drop(3);
    assert!(table.replace_value(3, 31));
    assert!(!table.replace_value(4, 40));
    let removed = table.remove_dropped();
    assert_eq!(removed.len(), 1);
    assert_eq!(removed[0].value, 31);
}
