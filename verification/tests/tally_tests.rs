use recipe_stats::tally::CountTable;

#[test]
fn new_table_is_empty() {
    let table = CountTable::new();
    assert_eq!(table.len(), 0);
    assert_eq!(table.get("anything"), 0);
}

#[test]
fn increment_counts_each_key() {
    let mut table = CountTable::new();
    table.increment("b");
    table.increment("a");
    table.increment("b");
    table.increment("c");
    table.increment("b");
    assert_eq!(table.len(), 3);
    assert_eq!(table.get("a"), 1);
    assert_eq!(table.get("b"), 3);
    assert_eq!(table.get("c"), 1);
    assert_eq!(table.get("d"), 0);
    assert_eq!(table.get(""), 0);
}

#[test]
fn entries_are_in_ascending_key_order() {
    let mut table = CountTable::new();
    for key in ["pear", "apple", "fig", "apple", "banana", "fig", "apple"] {
        table.increment(key);
    }
    let keys: Vec<String> = (0..table.len()).map(|i| table.entry(i).key.clone()).collect();
    let counts: Vec<u64> = (0..table.len()).map(|i| table.entry(i).count).collect();
    assert_eq!(keys, vec!["apple", "banana", "fig", "pear"]);
    assert_eq!(counts, vec![3, 1, 2, 1]);
}

#[test]
fn empty_key_is_a_key() {
    let mut table = CountTable::new();
    table.increment("");
    table.increment("a");
    table.increment("");
    assert_eq!(table.get(""), 2);
    assert_eq!(table.entry(0).key, "");
}
