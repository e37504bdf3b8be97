use profiler::string_table::StringTable;

#[test]
fn strings_are_interned_once() {
    let mut string_table = StringTable::new();
    assert_eq!(string_table.get_index("Thread 1, Marker 1"), 0);
    assert_eq!(string_table.get_index("Thread 1, Marker 2"), 1);
    assert_eq!(string_table.get_index("Thread 1, Marker 1"), 0);
    assert_eq!(string_table.get_index(""), 2);
    assert_eq!(string_table.len(), 3);
    assert_eq!(
        string_table.serialize(),
        vec![
            "Thread 1, Marker 1".to_string(),
            "Thread 1, Marker 2".to_string(),
            "".to_string()
        ]
    );
}

#[test]
fn an_empty_table_serializes_to_nothing() {
    assert_eq!(StringTable::new().serialize(), Vec::<String>::new());
    assert_eq!(StringTable::new().len(), 0);
}
