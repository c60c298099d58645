use chrono::Datelike;
use dm_analyser::raster::{call_graph_raster, Pixel};
use dm_analyser::reports::{
    call_duration_by_day_of_week_graph, call_duration_by_month_graph, call_graph,
    call_start_time_of_day_graph, text_time_of_day_graph, texting_frequency, CallRecord,
    TextRecord,
};

fn call(author: &str, start_ms_of_day: usize, duration_ms: usize) -> CallRecord {
    CallRecord {
        author: String::from(author),
        start_ms_of_day,
        duration_ms,
        month0: 0,
        weekday0: 0,
    }
}

fn text(author: &str, ms_of_day: usize, y: i32, m: u32, d: u32) -> TextRecord {
    let date = chrono::NaiveDate::from_ymd_opt(y, m, d).unwrap();
    TextRecord {
        author: String::from(author),
        ms_of_day,
        day_ce: date.num_days_from_ce() as usize,
        ordinal0: date.ordinal0() as usize,
    }
}

#[test]
fn end_to_end_two_author_day_grid() {
    // Two authors; one call by A from 00:05:00 to 00:17:00 over ten-minute
    // buckets: bucket 0 receives 5 minutes, bucket 1 receives 7, and the
    // parts sum to the full 12 minutes.
    let authors = vec![String::from("A"), String::from("B")];
    let calls = vec![call("A", 300000, 720000)];
    let s = call_graph(authors, &calls).unwrap();
    assert!(s.starts_with("\n# Call Graph (10m groupings, min = 15s)\n"));
    assert!(s.contains("sum = 720000"));
    assert!(s.contains("min = 300000"));
    assert!(s.contains("max = 420000"));
    assert!(s.contains("mean = 360000.0000"));
    assert!(s.contains("sd = 60000.0000"));
}

#[test]
fn wraparound_call_touches_last_and_first_bucket() {
    // A call from 23:50 to 00:10 the next day must not fault and must
    // contribute ten minutes to the last bucket and ten to bucket 0.
    let authors = vec![String::from("A")];
    let calls = vec![call("A", 85800000, 1200000)];
    let s = call_graph(authors, &calls).unwrap();
    assert!(s.contains("sum = 1200000"));
    assert!(s.contains("max = 600000"));
    assert!(s.contains("min = 0"));
    assert!(s.contains("mean = 8333.3333"));
    assert!(s.contains("23h50m | "));
}

#[test]
fn call_start_counts_quarter_hours() {
    let authors = vec![String::from("A")];
    let calls = vec![
        call("A", 0, 60000),
        call("A", 450000, 60000),   // 00:07:30, same quarter hour
        call("A", 900000, 60000),   // 00:15:00, next quarter hour
        call("A", 900001, 5000),    // under 15 s: filtered out
    ];
    let s = call_start_time_of_day_graph(authors, &calls).unwrap();
    assert!(s.starts_with("\n# Call Start Time of Day Graph (min = 15s, 15m groupings)\n"));
    assert!(s.contains("sum = 3"));
    assert!(s.contains("max = 2"));
    assert!(s.contains("00h15m | "));
}

#[test]
fn text_frequency_by_time_of_day() {
    let authors = vec![String::from("A")];
    let texts = vec![text("A", 3600000, 2024, 1, 1), text("A", 3600001, 2024, 1, 1)];
    let s = text_time_of_day_graph(authors, &texts).unwrap();
    assert!(s.starts_with("\n# Text Time of Day Graph (10m groupings)\n"));
    assert!(s.contains("sum = 2"));
    assert!(s.contains("01h00m | "));
}

#[test]
fn month_graph_averages_durations() {
    let mut a = call("chan", 0, 60000);
    a.month0 = 2;
    let mut b = call("chan", 0, 10000);  // filtered: under 15 s
    b.month0 = 2;
    let s = call_duration_by_month_graph(String::from("chan"), &vec![a, b]).unwrap();
    assert!(s.starts_with("\n# Call Duration by Month Graph (min = 15s)\n"));
    assert!(s.contains("sum = 60000"));
    assert!(s.contains("Mar | "));
    assert!(!s.contains("Apr"));
}

#[test]
fn weekday_graph_averages_durations() {
    let mut a = call("chan", 0, 120000);
    a.weekday0 = 6;
    let mut b = call("chan", 0, 60000);
    b.weekday0 = 6;
    let s = call_duration_by_day_of_week_graph(String::from("chan"), &vec![a, b]).unwrap();
    assert!(s.starts_with("\n# Call Duration by Day of Week Graph (min = 15s)\n"));
    // Average of the two durations in the single touched bucket.
    assert!(s.contains("sum = 90000"));
    assert!(s.contains("Sun | "));
}

#[test]
fn texting_frequency_weekly_buckets() {
    let authors = vec![String::from("A"), String::from("B")];
    let texts = vec![
        text("A", 0, 2024, 1, 1),
        text("B", 0, 2024, 1, 3),
        text("A", 0, 2024, 1, 10),
    ];
    let s = texting_frequency(authors, &texts).unwrap();
    assert!(s.starts_with("\n#Texting Frequency (Lifetime Graph; Weekly Buckets)\n"));
    assert!(s.contains("sum = 3"));
    assert!(s.contains("Week of Jan 01, 2024 | "));
    assert!(s.contains("Week of Jan 08, 2024 | "));
}

#[test]
fn texting_frequency_without_messages_is_none() {
    let authors = vec![String::from("A")];
    let texts: Vec<TextRecord> = Vec::new();
    assert!(texting_frequency(authors, &texts).is_none());
}

#[test]
fn raster_image_dimensions_and_pixels() {
    let authors = vec![String::from("A")];
    let calls = vec![call("A", 0, 30000)];
    let img = call_graph_raster(&authors, &calls).unwrap();
    assert_eq!(img.width, 5760);
    assert_eq!(img.height, 917);
    assert_eq!(img.columns.len(), 5760);
    for col in img.columns.iter() {
        assert_eq!(col.len(), 917);
    }
    // Column 4440 maps to bucket 0 under the rotation offset; the call
    // fills its bottom rows with the first author's colour at full alpha.
    let lit = &img.columns[4440];
    assert_eq!(lit[916], Pixel { r: 0x98, g: 0xC3, b: 0x79, a: 0xFF });
    // The top of that column and untouched columns stay background.
    assert_eq!(lit[0], Pixel { r: 0x31, g: 0x33, b: 0x38, a: 0xFF });
    let empty_col = &img.columns[0];
    assert_eq!(empty_col[916], Pixel { r: 0x31, g: 0x33, b: 0x38, a: 0xFF });
}

#[test]
fn raster_with_no_calls_is_all_background() {
    let authors = vec![String::from("A")];
    let calls: Vec<CallRecord> = Vec::new();
    let img = call_graph_raster(&authors, &calls).unwrap();
    for col in img.columns.iter() {
        for p in col.iter() {
            assert_eq!(*p, Pixel { r: 0x31, g: 0x33, b: 0x38, a: 0xFF });
        }
    }
}

#[test]
fn report_beyond_bucket_limit_is_rejected() {
    // Two messages more than 65536 weeks apart ask for more buckets than
    // the engine admits: reported as failure, not a fault.
    let authors = vec![String::from("A")];
    let texts = vec![
        TextRecord { author: String::from("A"), ms_of_day: 0, day_ce: 400000, ordinal0: 0 },
        TextRecord {
            author: String::from("A"),
            ms_of_day: 0,
            day_ce: 400000 + 65537 * 7,
            ordinal0: 0,
        },
    ];
    assert!(texting_frequency(authors, &texts).is_none());
}
