use junk_spider::key_tracker::KeyMap;
use junk_spider::key_tracker::KeyTracker;

fn preloaded() -> KeyTracker {
    KeyTracker::load(vec![
        (0, "zero".to_string()),
        (1, "one".to_string()),
        (3, "three".to_string()),
    ])
}

fn key_of(tracker: &KeyTracker, natural: &str) -> Option<i32> {
    tracker
        .snapshot()
        .into_iter()
        .find(|(_, v)| v == natural)
        .map(|(k, _)| k)
}

#[test]
fn loaded_tracker_sits_on_lowest_gap() {
    let tracker = preloaded();
    assert_eq!(tracker.see_next_key(), &2);
}

#[test]
fn calc_lowest_key_probes_from_zero() {
    let mut map = KeyMap::new();
    map.insert(0, "a".to_string());
    map.insert(1, "b".to_string());
    map.insert(2, "c".to_string());
    assert_eq!(KeyTracker::calc_lowest_key(&map), 3);

    let empty = KeyMap::new();
    assert_eq!(KeyTracker::calc_lowest_key(&empty), 0);
}

#[test]
fn transact_fills_gap_then_recalculates() {
    // mirrors the allocator's doc example: {0, 1, 3} used, "two" gets 2,
    // and the cursor jumps past the now-used 3 to 4
    let mut tracker = preloaded();
    let pk = tracker.transact("two".to_string());
    assert_eq!(pk, 2);
    assert_eq!(tracker.see_next_key(), &4);
}

#[test]
fn stress_labels_fill_densely() {
    // ten labels resolved against a tracker preloaded with {0, 1, 3}
    let mut tracker = preloaded();
    let labels = vec![
        "one", "two", "three", "four", "five", "six", "seven", "eight", "nine", "ten",
    ];
    for label in labels {
        tracker.transact(label.to_string());
    }
    assert_eq!(tracker.see_next_key(), &11);
    assert_eq!(key_of(&tracker, "two"), Some(2));
    assert_eq!(key_of(&tracker, "seven"), Some(7));
    assert_eq!(key_of(&tracker, "eight"), Some(8));
    assert_eq!(key_of(&tracker, "ten"), Some(10));
}

#[test]
fn allocator_density() {
    // an allocator pre-loaded with surrogates {0, 1, 3} hands the next
    // three naturals {2, 4, 5}, in call order
    let mut tracker = KeyTracker::load(vec![
        (0, "u0".to_string()),
        (1, "u1".to_string()),
        (3, "u3".to_string()),
    ]);
    let a = tracker.transact("A".to_string());
    let b = tracker.transact("B".to_string());
    let c = tracker.transact("C".to_string());
    assert_eq!((a, b, c), (2, 4, 5));
}

#[test]
fn allocator_bijective_under_repeats() {
    // resolving the same natural twice returns the same surrogate, and
    // distinct naturals never share one
    let mut tracker = KeyTracker::load(vec![]);
    let first = tracker.transact("BTCUSDT".to_string());
    let second = tracker.transact("ETHUSDT".to_string());
    let again = tracker.transact("BTCUSDT".to_string());
    assert_eq!(first, again);
    assert_ne!(first, second);

    let snapshot = tracker.snapshot();
    assert_eq!(snapshot.len(), 2);
    for (k1, v1) in &snapshot {
        for (k2, v2) in &snapshot {
            if v1 != v2 {
                assert_ne!(k1, k2);
            }
        }
    }
}

#[test]
fn load_skips_colliding_pairs() {
    let tracker = KeyTracker::load(vec![
        (0, "zero".to_string()),
        (0, "dup-key".to_string()),
        (1, "zero".to_string()),
        (2, "two".to_string()),
    ]);
    let mut snapshot = tracker.snapshot();
    snapshot.sort();
    assert_eq!(
        snapshot,
        vec![(0, "zero".to_string()), (2, "two".to_string())]
    );
}
