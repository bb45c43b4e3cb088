use agent_marketplace::sync::{poll_range, sync_batches, sync_plan_fits, SYNC_BATCH_SIZE};

#[test]
fn history_is_synced_in_batches() {
    assert_eq!(SYNC_BATCH_SIZE, 10_000);
    assert_eq!(
        sync_batches(5, 25_000),
        vec![(5, 10_004), (10_005, 20_004), (20_005, 25_000)]
    );
}

#[test]
fn a_range_within_one_batch() {
    assert_eq!(sync_batches(100, 100), vec![(100, 100)]);
    assert_eq!(sync_batches(0, 9_999), vec![(0, 9_999)]);
    assert_eq!(sync_batches(0, 10_000), vec![(0, 9_999), (10_000, 10_000)]);
}

#[test]
fn nothing_to_sync_past_the_latest_block() {
    assert!(sync_batches(11, 10).is_empty());
}

#[test]
fn batches_cover_the_range_without_gaps() {
    let plan = sync_batches(7, 123_456);
    assert_eq!(plan[0].0, 7);
    assert_eq!(plan[plan.len() - 1].1, 123_456);
    for w in plan.windows(2) {
        assert_eq!(w[0].1 + 1, w[1].0);
    }
    for (a, b) in &plan {
        assert!(a <= b && b - a < SYNC_BATCH_SIZE);
    }
}

#[test]
fn a_poll_asks_for_the_new_blocks_only() {
    assert_eq!(poll_range(120, 100), Some((101, 120)));
    assert_eq!(poll_range(100, 100), None);
    assert_eq!(poll_range(90, 100), None);
}

#[test]
fn a_plan_near_the_top_of_the_block_range_does_not_fit() {
    assert!(sync_plan_fits(0, 100));
    assert!(sync_plan_fits(5, 4));
    assert!(!sync_plan_fits(u64::MAX - 5, u64::MAX));
    assert!(sync_plan_fits(u64::MAX - 20_000, u64::MAX - 1));
    assert!(!sync_plan_fits(u64::MAX - 9_000, u64::MAX - 1));
    assert!(!sync_plan_fits(u64::MAX - 20_000, u64::MAX));
}

#[test]
fn polling_rounds_never_lower_the_synced_block_and_skip_nothing() {
    let mut last = 100u64;
    let mut asked = Vec::new();
    for latest in [100u64, 105, 103, 110, 110, 111] {
        if let Some((from, to)) = poll_range(latest, last) {
            asked.push((from, to));
            assert!(to >= last);
            last = to;
        }
    }
    assert_eq!(asked, vec![(101, 105), (106, 110), (111, 111)]);
    assert_eq!(last, 111);
}
