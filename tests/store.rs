use rust_server::{DbCommon, DbDesc, DbError, Record, StdDb};
use std::sync::Arc;

fn rec(index: i32, value: i32) -> Record {
    Record { index, value }
}

#[test]
fn search_update_add_example() {
    let db = StdDb::new(vec![3, 1, 3]);
    assert_eq!(db.search(3).records, vec![rec(0, 3), rec(2, 3)]);
    assert_eq!(db.add(7), Ok(()));
    assert_eq!(db.snapshot(), vec![3, 1, 3, 7]);
    assert_eq!(db.update(&[rec(1, 9)]), Ok(()));
    assert_eq!(db.snapshot(), vec![3, 9, 3, 7]);
    assert_eq!(db.search(9).records, vec![rec(1, 9)]);
    assert_eq!(db.update(&[rec(99, 1)]), Err(DbError::IndexOutOfRange));
    assert_eq!(db.snapshot(), vec![3, 9, 3, 7]);
}

#[test]
fn search_without_match_is_empty() {
    assert!(DbCommon::search(5, &[1, 2, 3]).records.is_empty());
    assert!(DbCommon::search(5, &[]).records.is_empty());
}

#[test]
fn search_finds_every_match_in_order() {
    let r = DbCommon::search(-4, &[-4, -4, 0, -4, 7]).records;
    assert_eq!(r, vec![rec(0, -4), rec(1, -4), rec(3, -4)]);
}

#[test]
fn add_appends_at_the_end() {
    let mut v = vec![1, 2];
    assert_eq!(DbCommon::add(5, &mut v), Ok(()));
    assert_eq!(DbCommon::add(5, &mut v), Ok(()));
    assert_eq!(DbCommon::add(-8, &mut v), Ok(()));
    assert_eq!(v, vec![1, 2, 5, 5, -8]);
}

#[test]
fn update_writes_only_named_indices() {
    let mut v = vec![10, 20, 30, 40];
    assert_eq!(DbCommon::update(&[rec(3, 0), rec(1, -1)], &mut v), Ok(()));
    assert_eq!(v, vec![10, -1, 30, 0]);
}

#[test]
fn update_last_write_to_an_index_wins() {
    let mut v = vec![0, 0, 0];
    assert_eq!(DbCommon::update(&[rec(2, 5), rec(0, 1), rec(2, 6)], &mut v), Ok(()));
    assert_eq!(v, vec![1, 0, 6]);
}

#[test]
fn update_empty_batch_succeeds() {
    let mut v = vec![4];
    assert_eq!(DbCommon::update(&[], &mut v), Ok(()));
    assert_eq!(v, vec![4]);
    let mut empty: Vec<i32> = vec![];
    assert_eq!(DbCommon::update(&[], &mut empty), Ok(()));
}

#[test]
fn update_out_of_range_writes_nothing() {
    let mut v = vec![1, 2, 3];
    assert_eq!(DbCommon::update(&[rec(0, 9), rec(3, 9)], &mut v), Err(DbError::IndexOutOfRange));
    assert_eq!(v, vec![1, 2, 3]);
    assert_eq!(DbCommon::update(&[rec(1, 9), rec(-1, 9)], &mut v), Err(DbError::IndexOutOfRange));
    assert_eq!(v, vec![1, 2, 3]);
    let mut empty: Vec<i32> = vec![];
    assert_eq!(DbCommon::update(&[rec(0, 1)], &mut empty), Err(DbError::IndexOutOfRange));
}

#[test]
fn update_fault_is_the_same_on_every_run() {
    for _ in 0..3 {
        let db = StdDb::new(vec![3, 9, 3, 7]);
        assert_eq!(db.update(&[rec(2, 0), rec(4, 1)]), Err(DbError::IndexOutOfRange));
        assert_eq!(db.snapshot(), vec![3, 9, 3, 7]);
    }
}

#[test]
fn initial_records_in_range_and_reproducible() {
    let a = DbCommon::initial_records(1000, 100, 42);
    let b = DbCommon::initial_records(1000, 100, 42);
    assert_eq!(a.len(), 1000);
    assert!(a.iter().all(|&x| (0..100).contains(&x)));
    assert_eq!(a, b);
    assert!(a.iter().any(|&x| x != a[0]));
    assert_ne!(a, DbCommon::initial_records(1000, 100, 43));
    assert!(DbCommon::initial_records(0, 1, 7).is_empty());
    assert!(DbCommon::initial_records(50, 1, 7).iter().all(|&x| x == 0));
}

#[test]
fn default_store_is_filled() {
    let db = StdDb::default();
    let v = db.snapshot();
    assert_eq!(v.len(), 1_000_000);
    assert!(v.iter().all(|&x| (0..100_000).contains(&x)));
    assert!(db.description().starts_with("StdDb"));
}

#[test]
fn concurrent_appends_are_neither_lost_nor_duplicated() {
    let rt = tokio::runtime::Builder::new_multi_thread().worker_threads(4).build().unwrap();
    let db = Arc::new(StdDb::new(vec![-1, -2]));
    let mut handles = Vec::new();
    for t in 0..8 {
        let db = Arc::clone(&db);
        handles.push(rt.spawn_blocking(move || {
            for k in 0..100 {
                assert_eq!(db.add(t * 1000 + k), Ok(()));
            }
        }));
    }
    for h in handles {
        rt.block_on(h).unwrap();
    }
    let v = db.snapshot();
    assert_eq!(v.len(), 2 + 800);
    assert_eq!(&v[..2], &[-1, -2]);
    let mut added: Vec<i32> = v[2..].to_vec();
    added.sort();
    let mut expected: Vec<i32> = (0..8).flat_map(|t| (0..100).map(move |k| t * 1000 + k)).collect();
    expected.sort();
    assert_eq!(added, expected);
}

#[test]
fn concurrent_searches_never_see_half_an_update() {
    let rt = tokio::runtime::Builder::new_multi_thread().worker_threads(4).build().unwrap();
    let db = Arc::new(StdDb::new(vec![0; 64]));
    let writer = {
        let db = Arc::clone(&db);
        rt.spawn_blocking(move || {
            for round in 1..200 {
                let batch: Vec<Record> = (0..64).map(|i| rec(i, round)).collect();
                assert_eq!(db.update(&batch), Ok(()));
                assert_eq!(db.add(round), Ok(()));
            }
        })
    };
    let mut readers = Vec::new();
    for _ in 0..3 {
        let db = Arc::clone(&db);
        readers.push(rt.spawn_blocking(move || {
            for q in 0..200 {
                let found = db.search(q).records;
                // The first 64 indices are always written together.
                let low = found.iter().filter(|r| r.index < 64).count();
                assert!(low == 0 || low == 64);
                assert!(found.windows(2).all(|w| w[0].index < w[1].index));
                assert!(found.iter().all(|r| r.value == q));
            }
        }));
    }
    rt.block_on(writer).unwrap();
    for r in readers {
        rt.block_on(r).unwrap();
    }
    assert_eq!(db.snapshot().len(), 64 + 199);
    assert_eq!(db.search(199).records.len(), 65);
}

#[test]
fn update_within_starting_length_always_succeeds() {
    let db = StdDb::new(vec![5, 6, 7]);
    assert_eq!(db.add(8), Ok(()));
    assert_eq!(db.update(&[rec(2, 0), rec(0, 1)]), Ok(()));
    assert_eq!(db.update(&[rec(3, 4)]), Ok(()));
    assert_eq!(db.snapshot(), vec![1, 6, 0, 4]);
    assert!(db.snapshot().len() >= 3);
}
