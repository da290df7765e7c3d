use junk_spider::errors::IngestError;
use junk_spider::rows::ObservationRow;
use junk_spider::store::Store;

fn row(entity_pk: i32, date: i64, value_bits: u64) -> ObservationRow {
    ObservationRow {
        entity_pk,
        metric_pk: 1,
        period_pk: 3,
        date,
        value_bits,
        source_pk: 7,
    }
}

#[test]
fn bulk_load_appends_whole_batch() {
    let mut store = Store::new();
    let batch = vec![row(1, 100, 10), row(1, 200, 20), row(2, 100, 30)];
    assert_eq!(store.bulk_load(batch), Ok(3));
    assert_eq!(store.rows.len(), 3);
}

#[test]
fn bulk_load_atomicity() {
    // one conflicting row among a hundred leaves zero rows persisted
    let mut store = Store::new();
    let mut batch: Vec<ObservationRow> = Vec::new();
    for i in 0..100 {
        if i == 49 {
            // row 50 repeats row 10's composite identity (the measured
            // value is not part of the identity)
            batch.push(row(1, 9, 999));
        } else {
            batch.push(row(1, i as i64, i as u64));
        }
    }
    assert_eq!(store.bulk_load(batch), Err(IngestError::LoadError));
    assert_eq!(store.rows.len(), 0);
}

#[test]
fn bulk_load_rejects_stored_identity() {
    let mut store = Store::new();
    assert_eq!(store.bulk_load(vec![row(1, 100, 10)]), Ok(1));
    // same identity, different value: still a conflict
    let result = store.bulk_load(vec![row(1, 300, 1), row(1, 100, 99)]);
    assert_eq!(result, Err(IngestError::LoadError));
    assert_eq!(store.rows.len(), 1);
}

#[test]
fn fetch_existing_is_scoped_to_one_entity() {
    let mut store = Store::new();
    store
        .bulk_load(vec![row(1, 100, 10), row(2, 100, 20), row(1, 200, 30)])
        .unwrap();
    let keys = store.fetch_existing(1);
    assert_eq!(keys.len(), 2);
    for k in &keys {
        assert_eq!(k.entity_pk, 1);
    }
    assert_eq!(store.fetch_existing(3).len(), 0);
}

#[test]
fn upsert_listing_ignores_conflicts() {
    let mut store = Store::new();
    store.upsert_listing(0, "AAPL".to_string());
    store.upsert_listing(1, "MSFT".to_string());
    store.upsert_listing(9, "AAPL".to_string());
    assert_eq!(store.listing.len(), 2);
    assert_eq!(store.listed_pk(&"AAPL".to_string()), Some(0));
    assert_eq!(store.listed_pk(&"MSFT".to_string()), Some(1));
    assert_eq!(store.listed_pk(&"NVDA".to_string()), None);
}
