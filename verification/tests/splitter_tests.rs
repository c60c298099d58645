use dm_analyser::split_interval;

const DAY_MS: usize = 86400000;
const TEN_MIN: usize = 600000;

#[test]
fn day_interval_split_across_two_buckets() {
    // A call from 00:05:00 to 00:17:00: 5 minutes in bucket 0, 7 in bucket 1.
    let parts = split_interval(300000, 720000, TEN_MIN, 144);
    assert_eq!(parts, vec![(0, 300000), (1, 420000)]);
    let total: usize = parts.iter().map(|p| p.1).sum();
    assert_eq!(total, 720000);
}

#[test]
fn wraparound_past_midnight() {
    // A call from 23:50 to 00:10 the next day: ten minutes in the last
    // bucket of the day and ten in bucket 0, no out-of-range index.
    let parts = split_interval(85800000, 1200000, TEN_MIN, 144);
    assert_eq!(parts, vec![(143, TEN_MIN), (0, TEN_MIN)]);
}

#[test]
fn single_bucket_emits_one_pair() {
    let parts = split_interval(20, 5, 10, 10);
    assert_eq!(parts, vec![(2, 5)]);
}

#[test]
fn zero_duration_emits_single_zero_pair() {
    let parts = split_interval(25, 0, 10, 10);
    assert_eq!(parts, vec![(2, 0)]);
}

#[test]
fn boundary_start_head_is_full_bucket() {
    // Starting exactly on a bucket boundary: the head covers the whole bucket.
    let parts = split_interval(10, 30, 10, 10);
    assert_eq!(parts, vec![(1, 10), (2, 10), (3, 10)]);
}

#[test]
fn multi_wrap_conserves_duration() {
    // An interval two and a half times the cycle: every bucket touched,
    // some more than once, and nothing lost or double counted.
    let parts = split_interval(0, 250, 10, 10);
    assert_eq!(parts.len(), 25);
    let total: usize = parts.iter().map(|p| p.1).sum();
    assert_eq!(total, 250);
    for p in parts.iter() {
        assert!(p.0 < 10);
    }
    // The eleventh part has wrapped back to bucket 0.
    assert_eq!(parts[10].0, 0);
}

#[test]
fn long_interval_over_day_cycle_conserves() {
    // Several multiples of a whole day.
    let parts = split_interval(1234567, 3 * DAY_MS + 4567, TEN_MIN, 144);
    let total: usize = parts.iter().map(|p| p.1).sum();
    assert_eq!(total, 3 * DAY_MS + 4567);
    for p in parts.iter() {
        assert!(p.0 < 144);
    }
}
