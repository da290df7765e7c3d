use junk_spider::errors::IngestError;
use junk_spider::key_tracker::KeyTracker;
use junk_spider::pipeline::process_entity;
use junk_spider::pipeline::run_source;
use junk_spider::pipeline::EntityTask;
use junk_spider::pipeline::FetchOutcome;
use junk_spider::pipeline::RawBar;
use junk_spider::rows::ObservationRow;
use junk_spider::store::Store;

fn bar(date: i64, value_bits: u64) -> RawBar {
    RawBar {
        metric_pk: 0,
        period_pk: 3,
        date,
        value_bits,
    }
}

fn fetched(symbol: &str, bars: Vec<RawBar>) -> EntityTask {
    EntityTask {
        symbol: symbol.to_string(),
        outcome: FetchOutcome::Fetched(bars),
    }
}

#[test]
fn isolation_of_failing_task() {
    // entity task #7 of 20 fails to decode; the other 19 still run, and
    // successes and failures add up to 20
    let mut store = Store::new();
    let mut alloc = KeyTracker::load(vec![]);
    let mut symbols: Vec<String> = Vec::new();
    let mut tasks: Vec<EntityTask> = Vec::new();
    for i in 0..20 {
        let symbol = format!("SYM{}", i);
        symbols.push(symbol.clone());
        if i == 6 {
            tasks.push(EntityTask {
                symbol,
                outcome: FetchOutcome::DecodeFailed,
            });
        } else {
            tasks.push(fetched(&symbol, vec![bar(100 + i as i64, i as u64)]));
        }
    }
    let summary = run_source(&mut store, &mut alloc, "mexc".to_string(), symbols, tasks);
    assert_eq!(summary.success_count, 19);
    assert_eq!(summary.failure_count, 1);
    assert_eq!(summary.success_count + summary.failure_count, 20);
    assert_eq!(store.rows.len(), 19);
}

#[test]
fn end_to_end_scenario() {
    // a listing of one symbol and a payload of three bars, one of which
    // is already stored: exactly two new rows, one success, no failures
    let mut store = Store::new();
    let mut alloc = KeyTracker::load(vec![]);

    // the provenance key resolves to 0 and "ABC" to 1
    let source_pk = 0;
    let abc_pk = 1;
    store
        .bulk_load(vec![ObservationRow {
            entity_pk: abc_pk,
            metric_pk: 0,
            period_pk: 3,
            date: 200,
            value_bits: 555,
            source_pk,
        }])
        .unwrap();
    assert_eq!(store.rows.len(), 1);

    let symbols = vec!["ABC".to_string()];
    let tasks = vec![fetched("ABC", vec![bar(100, 1), bar(200, 2), bar(300, 3)])];
    let summary = run_source(
        &mut store,
        &mut alloc,
        "yahoo".to_string(),
        symbols,
        tasks,
    );
    assert_eq!(summary.success_count, 1);
    assert_eq!(summary.failure_count, 0);
    assert_eq!(store.rows.len(), 3);
    assert_eq!(store.listed_pk(&"ABC".to_string()), Some(abc_pk));
}

#[test]
fn reconcile_then_load_twice_is_idempotent() {
    // loading the same fetched batch twice, with the existing-key set
    // re-fetched in between, stores it once
    let mut store = Store::new();
    let bars = vec![bar(100, 1), bar(200, 2), bar(300, 3)];
    assert_eq!(process_entity(&mut store, 5, 0, &bars), Ok(3));
    assert_eq!(store.rows.len(), 3);
    assert_eq!(process_entity(&mut store, 5, 0, &bars), Ok(0));
    assert_eq!(store.rows.len(), 3);
}

#[test]
fn unknown_symbol_counts_as_failure() {
    let mut store = Store::new();
    let mut alloc = KeyTracker::load(vec![]);
    let symbols = vec!["BTCUSDT".to_string()];
    // the payload was requested under a symbol the listing does not hold
    let tasks = vec![fetched("BTC-USDT", vec![bar(100, 1)])];
    let summary = run_source(
        &mut store,
        &mut alloc,
        "kucoin".to_string(),
        symbols,
        tasks,
    );
    assert_eq!(summary.success_count, 0);
    assert_eq!(summary.failure_count, 1);
    assert_eq!(store.rows.len(), 0);
}

#[test]
fn duplicate_bars_fail_their_whole_batch() {
    // two bars with one composite identity survive the diff together,
    // so the all-or-nothing load rejects the batch
    let mut store = Store::new();
    let bars = vec![bar(100, 1), bar(100, 2)];
    assert_eq!(
        process_entity(&mut store, 5, 0, &bars),
        Err(IngestError::LoadError)
    );
    assert_eq!(store.rows.len(), 0);
}

#[test]
fn fetch_failure_counts_without_aborting() {
    let mut store = Store::new();
    let mut alloc = KeyTracker::load(vec![]);
    let symbols = vec!["A".to_string(), "B".to_string()];
    let tasks = vec![
        EntityTask {
            symbol: "A".to_string(),
            outcome: FetchOutcome::FetchFailed,
        },
        fetched("B", vec![bar(1, 1)]),
    ];
    let summary = run_source(&mut store, &mut alloc, "fred".to_string(), symbols, tasks);
    assert_eq!(summary.success_count, 1);
    assert_eq!(summary.failure_count, 1);
    assert_eq!(store.rows.len(), 1);
}

#[test]
fn listing_pass_allocates_and_upserts() {
    let mut store = Store::new();
    let mut alloc = KeyTracker::load(vec![]);
    let symbols = vec!["X".to_string(), "Y".to_string(), "X".to_string()];
    let summary = run_source(
        &mut store,
        &mut alloc,
        "binance".to_string(),
        symbols,
        vec![],
    );
    assert_eq!(summary.success_count + summary.failure_count, 0);
    // provenance key first, then the two distinct symbols, densely
    assert_eq!(store.listing.len(), 2);
    assert_eq!(store.listed_pk(&"X".to_string()), Some(1));
    assert_eq!(store.listed_pk(&"Y".to_string()), Some(2));
    assert_eq!(alloc.see_next_key(), &3);
}

#[test]
fn each_failure_names_its_error() {
    let mut store = Store::new();
    store.upsert_listing(1, "ABC".to_string());

    let fetch_failed = EntityTask {
        symbol: "ABC".to_string(),
        outcome: FetchOutcome::FetchFailed,
    };
    assert_eq!(
        junk_spider::pipeline::process_task(&mut store, 0, &fetch_failed),
        Err(IngestError::FetchError)
    );

    let decode_failed = EntityTask {
        symbol: "ABC".to_string(),
        outcome: FetchOutcome::DecodeFailed,
    };
    assert_eq!(
        junk_spider::pipeline::process_task(&mut store, 0, &decode_failed),
        Err(IngestError::DecodeError)
    );

    let unknown = fetched("XYZ", vec![bar(100, 1)]);
    assert_eq!(
        junk_spider::pipeline::process_task(&mut store, 0, &unknown),
        Err(IngestError::KeyNotFound)
    );

    let conflicting = fetched("ABC", vec![bar(100, 1), bar(100, 2)]);
    assert_eq!(
        junk_spider::pipeline::process_task(&mut store, 0, &conflicting),
        Err(IngestError::LoadError)
    );

    // nothing above touched the observation table
    assert_eq!(store.rows.len(), 0);

    let good = fetched("ABC", vec![bar(100, 1)]);
    assert_eq!(
        junk_spider::pipeline::process_task(&mut store, 0, &good),
        Ok(1)
    );
    assert_eq!(store.rows.len(), 1);
}
