use rust_calc::{entry_text, history_key, HistoryStore, Operator};
use std::collections::BTreeMap;

#[test]
fn keys_are_zero_padded_positions() {
    assert_eq!(history_key(0), "history/00000000000000000000");
    assert_eq!(history_key(42), "history/00000000000000000042");
    assert_eq!(history_key(usize::MAX), format!("history/{:020}", usize::MAX));
}

#[test]
fn keys_sort_in_insertion_order() {
    let positions = [0usize, 1, 9, 10, 11, 99, 100, 12345, usize::MAX];
    for pair in positions.windows(2) {
        assert!(history_key(pair[0]) < history_key(pair[1]));
    }
}

#[test]
fn entries_read_as_written_calculations() {
    assert_eq!(entry_text("8", Operator::Divide, "2", "4"), "8 ÷ 2 = 4");
    assert_eq!(entry_text("2,5", Operator::Multiply, "4", "10"), "2,5 × 4 = 10");
    assert_eq!(entry_text("1", Operator::Subtract, "3", "-2"), "1 − 3 = -2");
}

#[test]
fn records_without_text_are_skipped() {
    let store = HistoryStore::from_records(vec![
        Some("1 + 1 = 2".to_string()),
        None,
        Some("2 × 3 = 6".to_string()),
    ]);
    assert_eq!(store.entries(), vec!["1 + 1 = 2", "2 × 3 = 6"]);
    assert_eq!(store.len(), 2);
}

#[test]
fn a_prepared_record_takes_the_next_position() {
    let mut store = HistoryStore::from_records(vec![Some("1 + 1 = 2".to_string())]);
    let record = store.prepare_record("8", Operator::Divide, "2", "4");
    assert_eq!(record.key(), "history/00000000000000000001");
    assert_eq!(record.text(), "8 ÷ 2 = 4");
    assert_eq!(store.entries(), vec!["1 + 1 = 2"]);
    assert!(store.confirm_record(record));
    assert_eq!(store.entries(), vec!["1 + 1 = 2", "8 ÷ 2 = 4"]);
}

/// The records are kept, as in the database, in an ordered key space.
fn reopen(records: &BTreeMap<String, String>) -> HistoryStore {
    HistoryStore::from_records(
        records
            .range("history/".to_string()..)
            .take_while(|(k, _)| k.starts_with("history/"))
            .map(|(_, v)| Some(v.clone()))
            .collect(),
    )
}

#[test]
fn calculation_history_survives_a_restart() {
    let mut db = BTreeMap::new();
    {
        let mut history = reopen(&db);
        let record = history.prepare_record("8", Operator::Divide, "2", "4");
        db.insert(record.key().to_string(), record.text().to_string());
        assert!(history.confirm_record(record));
    }
    let history = reopen(&db);
    assert_eq!(history.entries(), vec!["8 ÷ 2 = 4"]);
}

#[test]
fn a_reopened_history_keeps_the_order_of_many_records() {
    let mut db = BTreeMap::new();
    let mut history = reopen(&db);
    let mut expected = Vec::new();
    for i in 0..25 {
        let left = i.to_string();
        let result = (i + 1).to_string();
        let record = history.prepare_record(&left, Operator::Add, "1", &result);
        db.insert(record.key().to_string(), record.text().to_string());
        expected.push(record.text().to_string());
        assert!(history.confirm_record(record));
    }
    assert_eq!(reopen(&db).entries(), expected);
}

#[test]
fn the_three_latest_entries_are_shown() {
    let store = HistoryStore::from_records(vec![]);
    assert_eq!(store.recent_text(), "");
    let store = HistoryStore::from_records(vec![Some("a".to_string())]);
    assert_eq!(store.recent_text(), "a");
    let store = HistoryStore::from_records(
        ["a", "b", "c", "d", "e"].iter().map(|s| Some(s.to_string())).collect(),
    );
    assert_eq!(store.recent_text(), "c\nd\ne");
    let store = HistoryStore::from_records(
        ["a", "b"].iter().map(|s| Some(s.to_string())).collect(),
    );
    assert_eq!(store.recent_text(), "a\nb");
}

#[test]
fn a_record_prepared_for_another_position_is_refused() {
    let mut store = HistoryStore::from_records(vec![]);
    let first = store.prepare_record("1", Operator::Add, "1", "2");
    let stale = store.prepare_record("2", Operator::Add, "2", "4");
    assert!(store.confirm_record(first));
    assert!(!store.confirm_record(stale));
    assert_eq!(store.entries(), vec!["1 + 1 = 2"]);
}
