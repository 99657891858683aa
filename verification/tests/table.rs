use hpm_data_gen::table::SignalTable;

#[test]
fn a_new_table_is_empty() {
    let table = SignalTable::new();
    assert!(table.is_empty());
    assert_eq!(table.len(), 0);
    assert_eq!(table.get("UART0_RX"), None);
    assert_eq!(table.find("UART0_RX"), None);
}

#[test]
fn insert_records_a_name_once() {
    let mut table = SignalTable::new();
    assert_eq!(table.insert("UART0_RX".to_string(), 8), None);
    assert_eq!(table.insert("UART0_TX".to_string(), 9), None);
    assert_eq!(table.len(), 2);
    assert!(!table.is_empty());
    assert_eq!(table.get("UART0_RX"), Some(8));
    assert_eq!(table.get("UART0_TX"), Some(9));
    assert_eq!(table.get("UART0"), None);
    assert_eq!(table.find("UART0_TX"), Some(1));
}

#[test]
fn insert_of_a_known_name_replaces_its_number_in_place() {
    let mut table = SignalTable::new();
    table.insert("A".to_string(), 1);
    table.insert("B".to_string(), 2);
    assert_eq!(table.insert("A".to_string(), 3), Some(1));
    assert_eq!(table.len(), 2);
    assert_eq!(table.name_at(0), "A");
    assert_eq!(table.value_at(0), 3);
    assert_eq!(table.name_at(1), "B");
    assert_eq!(table.value_at(1), 2);
    assert_eq!(table.get("A"), Some(3));
}

#[test]
fn a_clone_holds_the_same_entries() {
    let mut table = SignalTable::new();
    table.insert("A".to_string(), 1);
    table.insert("B".to_string(), 2);
    let copy = table.clone();
    assert_eq!(copy, table);
    assert_eq!(copy.len(), 2);
    assert_eq!(copy.get("B"), Some(2));
    table.insert("C".to_string(), 3);
    assert_eq!(copy.len(), 2);
    assert_ne!(copy, table);
}
