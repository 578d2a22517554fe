use record_store::errors::RunError;
use record_store::record::Record;
use record_store::run::{seed_if_empty, touch_all};
use record_store::store::Store;

fn rec(label: &str, created: i64, modified: i64) -> Record {
    Record { label: String::from(label), created, modified }
}

#[test]
fn insert_batch_appends_rows() {
    let mut store = Store::new();
    let batch = vec![rec("a", 1, 1), rec("b", 1, 1)];
    assert!(store.insert_batch(&batch).is_ok());
    assert_eq!(store.row_count(), 2);
    assert_eq!(store.get(0).label, "a");
    assert_eq!(store.get(1).label, "b");
}

#[test]
fn insert_batch_rejects_duplicate_labels() {
    let mut store = Store::new();
    assert!(store.insert_batch(&vec![rec("a", 1, 1)]).is_ok());
    assert_eq!(store.insert_batch(&vec![rec("a", 2, 2)]), Err(RunError::QueryError));
    assert_eq!(store.row_count(), 1);
    assert_eq!(store.get(0).created, 1);
    assert_eq!(
        store.insert_batch(&vec![rec("b", 2, 2), rec("b", 3, 3)]),
        Err(RunError::QueryError)
    );
    assert_eq!(store.row_count(), 1);
}

#[test]
fn read_sample_is_bounded() {
    let mut store = Store::new();
    let batch = vec![rec("a", 1, 1), rec("b", 1, 1), rec("c", 1, 1)];
    store.insert_batch(&batch).unwrap();
    let two = store.read_sample(2);
    assert_eq!(two.len(), 2);
    assert_eq!(two[0].label, "a");
    assert_eq!(two[1].label, "b");
    let all = store.read_sample(5);
    assert_eq!(all.len(), 3);
    assert_eq!(all[2].label, "c");
}

#[test]
fn upsert_replaces_modified_only_when_fresher() {
    let mut store = Store::new();
    store.insert_batch(&vec![rec("a", 1, 10)]).unwrap();
    store.upsert_with_freshness(&vec![rec("a", 7, 12)]);
    assert_eq!(store.row_count(), 1);
    assert_eq!(store.get(0).created, 1);
    assert_eq!(store.get(0).modified, 12);
    store.upsert_with_freshness(&vec![rec("a", 7, 11)]);
    assert_eq!(store.get(0).modified, 12);
    store.upsert_with_freshness(&vec![rec("a", 7, 12)]);
    assert_eq!(store.get(0).modified, 12);
}

#[test]
fn upsert_inserts_unknown_labels() {
    let mut store = Store::new();
    store.insert_batch(&vec![rec("a", 1, 1)]).unwrap();
    store.upsert_with_freshness(&vec![rec("b", 2, 2)]);
    assert_eq!(store.row_count(), 2);
    assert_eq!(store.get(1).label, "b");
    assert_eq!(store.get(1).created, 2);
    assert_eq!(store.get(1).modified, 2);
}

#[test]
fn freshness_is_idempotent_per_label() {
    let mut store = Store::new();
    store.insert_batch(&vec![rec("a", 0, 0)]).unwrap();
    store.upsert_with_freshness(&vec![rec("a", 0, 5)]);
    assert_eq!(store.get(0).modified, 5);
    store.upsert_with_freshness(&vec![rec("a", 0, 9)]);
    assert_eq!(store.get(0).modified, 9);
    store.upsert_with_freshness(&vec![rec("a", 0, 3)]);
    assert_eq!(store.get(0).modified, 9);
}

#[test]
fn labels_stay_unique_across_writes() {
    let mut store = Store::new();
    store.insert_batch(&vec![rec("a", 1, 1), rec("b", 1, 1)]).unwrap();
    store.upsert_with_freshness(&vec![rec("b", 2, 2), rec("c", 2, 2), rec("c", 3, 3)]);
    let n = store.row_count();
    assert_eq!(n, 3);
    for i in 0..n {
        for j in 0..i {
            assert_ne!(store.get(i).label, store.get(j).label);
        }
    }
}

#[test]
fn run_against_empty_store_seeds_then_freshens() {
    let mut store = Store::new();

    let sample = store.read_sample(5);
    assert_eq!(sample.len(), 0);
    let (records, seeded) = seed_if_empty(sample);
    assert!(seeded);
    store.insert_batch(&records).expect("seeding an empty store");
    assert_eq!(store.row_count(), 5);
    for i in 0..5 {
        assert_eq!(store.get(i).created, store.get(i).modified);
    }
    let t1 = records[0].created + 1;
    let touched = touch_all(records, t1);
    store.upsert_with_freshness(&touched);
    assert_eq!(store.row_count(), 5);
    let mut labels = Vec::new();
    for i in 0..5 {
        assert_eq!(store.get(i).created, t1 - 1);
        assert_eq!(store.get(i).modified, t1);
        labels.push(store.get(i).label.clone());
    }

    let sample = store.read_sample(5);
    assert_eq!(sample.len(), 5);
    let (records, seeded) = seed_if_empty(sample);
    assert!(!seeded);
    let touched = touch_all(records, t1 + 1);
    store.upsert_with_freshness(&touched);
    assert_eq!(store.row_count(), 5);
    for i in 0..5 {
        assert_eq!(store.get(i).label, labels[i]);
        assert_eq!(store.get(i).created, t1 - 1);
        assert!(store.get(i).modified > t1);
    }
}

#[test]
fn run_against_populated_store_only_freshens() {
    let mut store = Store::new();
    let batch = vec![
        rec("a", 10, 10),
        rec("b", 10, 10),
        rec("c", 10, 10),
        rec("d", 10, 10),
        rec("e", 10, 10),
    ];
    store.insert_batch(&batch).unwrap();

    let sample = store.read_sample(5);
    assert_eq!(sample.len(), 5);
    let (records, seeded) = seed_if_empty(sample);
    assert!(!seeded);
    let touched = touch_all(records, 20);
    store.upsert_with_freshness(&touched);
    assert_eq!(store.row_count(), 5);
    for i in 0..5 {
        assert_eq!(store.get(i).created, 10);
        assert_eq!(store.get(i).modified, 20);
    }
}
