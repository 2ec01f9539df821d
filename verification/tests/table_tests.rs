use stack_vm::ImmutableTable;
use stack_vm::MutableTable;
use stack_vm::Table;

#[test]
fn mutable_table_new() {
    let mutable_table: MutableTable<usize> = MutableTable::new();
    assert!(mutable_table.is_empty())
}

#[test]
fn mutable_table_insert() {
    let mut mutable_table: MutableTable<usize> = MutableTable::new();
    mutable_table.insert("example", 13);
    assert!(!mutable_table.is_empty());
    assert_eq!(*mutable_table.get("example").unwrap(), 13);
}

#[test]
fn insert_is_mutable() {
    let mut mutable_table: MutableTable<usize> = MutableTable::new();
    mutable_table.insert("example", 13);
    assert_eq!(*mutable_table.get("example").unwrap(), 13);
    mutable_table.insert("example", 14);
    assert_eq!(*mutable_table.get("example").unwrap(), 14);
}

#[test]
fn immutable_table_new() {
    let immutable_table: ImmutableTable<usize> = ImmutableTable::new();
    assert!(immutable_table.is_empty())
}

#[test]
fn immutable_table_insert() {
    let mut immutable_table: ImmutableTable<usize> = ImmutableTable::new();
    immutable_table.insert("example", 13);
    assert!(!immutable_table.is_empty());
    assert_eq!(*immutable_table.get("example").unwrap(), 13);
}

#[test]
fn contains_key_tracks_bindings() {
    let mut table: MutableTable<usize> = MutableTable::new();
    assert!(!table.contains_key("example"));
    table.insert("example", 13);
    assert!(table.contains_key("example"));
    assert!(!table.contains_key("other"));
}

#[test]
fn keys_in_binding_order() {
    let mut table: ImmutableTable<usize> = ImmutableTable::new();
    table.insert("first", 1);
    table.insert("second", 2);
    assert_eq!(table.keys(), vec!["first".to_string(), "second".to_string()]);
}
