use dm_analyser::TimeQuantity;

#[test]
fn round_trip_exact() {
    let values = [
        0usize,
        1,
        999,
        1000,
        59999,
        60000,
        3599999,
        3600000,
        86399999,
        86400000,
        93784005,
        123456789012,
    ];
    for &v in values.iter() {
        let t = TimeQuantity::from_milliseconds(v);
        assert_eq!(t.to_milliseconds(), v);
    }
}

#[test]
fn decomposition_components() {
    let t = TimeQuantity::from_milliseconds(93784005);
    assert_eq!(t.days, 1);
    assert_eq!(t.hours, 2);
    assert_eq!(t.minutes, 3);
    assert_eq!(t.seconds, 4);
    assert_eq!(t.milliseconds, 5);
}

#[test]
fn full_display_always_shows_all_units() {
    assert_eq!(
        TimeQuantity::from_milliseconds(93784005).to_string_full(),
        "1d02h03m04s005ms"
    );
    assert_eq!(TimeQuantity::from_milliseconds(5).to_string_full(), "0d00h00m00s005ms");
}

#[test]
fn compact_display_starts_at_most_significant_unit() {
    assert_eq!(
        TimeQuantity::from_milliseconds(93784005).to_string_compact(),
        "1d02h03m04s005ms"
    );
    assert_eq!(
        TimeQuantity::from_milliseconds(3723004).to_string_compact(),
        "01h02m03s004ms"
    );
    assert_eq!(TimeQuantity::from_milliseconds(62005).to_string_compact(), "01m02s005ms");
    assert_eq!(TimeQuantity::from_milliseconds(2005).to_string_compact(), "02s005ms");
    assert_eq!(TimeQuantity::from_milliseconds(5).to_string_compact(), "005ms");
    assert_eq!(TimeQuantity::from_milliseconds(0).to_string_compact(), "000ms");
}

#[test]
fn arithmetic() {
    let a = TimeQuantity::from_milliseconds(1500);
    let b = TimeQuantity::from_milliseconds(2700);
    assert_eq!(a.add(b).to_milliseconds(), 4200);
    assert_eq!(TimeQuantity::from_milliseconds(2000).mul(3).to_milliseconds(), 6000);
    assert_eq!(TimeQuantity::from_milliseconds(9000).div(4).to_milliseconds(), 2250);
}

#[test]
fn division_by_zero_yields_zero() {
    let t = TimeQuantity::from_milliseconds(12345);
    assert_eq!(t.div(0).to_milliseconds(), 0);
}

#[test]
fn sum_of_quantities() {
    let list = vec![
        TimeQuantity::from_milliseconds(1000),
        TimeQuantity::from_milliseconds(2500),
        TimeQuantity::from_milliseconds(500),
    ];
    assert_eq!(TimeQuantity::sum(&list).to_milliseconds(), 4000);
    let empty: Vec<TimeQuantity> = Vec::new();
    assert_eq!(TimeQuantity::sum(&empty).to_milliseconds(), 0);
}

#[test]
fn new_keeps_components() {
    let t = TimeQuantity::new(2, 25, 61, 61, 1001);
    assert_eq!(t.days, 2);
    assert_eq!(t.hours, 25);
    assert_eq!(t.minutes, 61);
    assert_eq!(t.seconds, 61);
    assert_eq!(t.milliseconds, 1001);
}
