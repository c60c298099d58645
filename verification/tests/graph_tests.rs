use chrono::Datelike;
use dm_analyser::graph::Graph;
use dm_analyser::labels::LabelStyle;
use dm_analyser::render::generate_progress_bar;
use dm_analyser::Reducer;

fn day_number(y: i32, m: u32, d: u32) -> u32 {
    chrono::NaiveDate::from_ymd_opt(y, m, d).unwrap().num_days_from_ce() as u32
}

#[test]
fn add_with_unknown_author_fails_and_changes_nothing() {
    let mut g = Graph::new(
        vec![String::from("A")],
        0,
        LabelStyle::HourMinute { minutes_per_bucket: 10 },
        Reducer::Sum,
        10,
    );
    assert!(!g.add("X", 0, 5));
    assert_eq!(g.data.len(), 0);
    assert_eq!(g.labels.len(), 0);
}

#[test]
fn add_grows_buckets_and_labels() {
    let mut g = Graph::new(
        vec![String::from("A"), String::from("B")],
        0,
        LabelStyle::HourMinute { minutes_per_bucket: 10 },
        Reducer::Sum,
        10,
    );
    assert!(g.add("B", 2, 5));
    assert_eq!(g.data.len(), 3);
    assert_eq!(g.labels.len(), 3);
    assert_eq!(g.labels[0], "00h00m");
    assert_eq!(g.labels[1], "00h10m");
    assert_eq!(g.labels[2], "00h20m");
    assert_eq!(g.data[2][1], vec![5]);
    assert!(g.data[2][0].is_empty());
    // Contributions accumulate in append order, never overwrite.
    assert!(g.add("B", 2, 7));
    assert_eq!(g.data[2][1], vec![5, 7]);
}

#[test]
fn progress_bar_proportional_fills() {
    let bar = generate_progress_bar(10, '#', '-', 10, &[5, 5]);
    assert_eq!(bar, "[\u{1B}[92m#####\u{1B}[0m\u{1B}[93m#####\u{1B}[0m]");
    let bar2 = generate_progress_bar(10, '#', '-', 20, &[5, 5]);
    assert_eq!(bar2, "[\u{1B}[92m##\u{1B}[0m\u{1B}[93m##\u{1B}[0m------]");
}

#[test]
fn progress_bar_zero_max_is_all_empty() {
    let bar = generate_progress_bar(5, '#', '-', 0, &[0]);
    assert_eq!(bar, "[\u{1B}[92m\u{1B}[0m-----]");
}

#[test]
fn render_with_no_data_reports_zeros() {
    let g = Graph::new(
        vec![String::from("A")],
        0,
        LabelStyle::HourMinute { minutes_per_bucket: 10 },
        Reducer::Sum,
        50,
    );
    let s = g.try_render().unwrap();
    assert_eq!(
        s,
        "Graph Data: sum = 0, mean = 0.0000, sd = 0.0000, width = 50, min = 0, max = 0\nLegend:\n\u{1B}[92mA\u{1B}[0m\n"
    );
}

#[test]
fn render_rotates_to_start_index() {
    let mut g = Graph::new(
        vec![String::from("A")],
        1,
        LabelStyle::HourMinute { minutes_per_bucket: 10 },
        Reducer::Sum,
        4,
    );
    assert!(g.add("A", 0, 2));
    assert!(g.add("A", 1, 4));
    let s = g.try_render().unwrap();
    let lines: Vec<&str> = s.lines().collect();
    // Header, legend heading, one legend entry, then buckets starting at 1.
    assert!(lines[3].starts_with("00h10m | "));
    assert!(lines[4].starts_with("00h00m | "));
}

#[test]
fn hour_minute_labels() {
    let style = LabelStyle::HourMinute { minutes_per_bucket: 10 };
    assert_eq!(style.label_of(0), "00h00m");
    assert_eq!(style.label_of(33), "05h30m");
    assert_eq!(style.label_of(143), "23h50m");
    let quarter = LabelStyle::HourMinute { minutes_per_bucket: 15 };
    assert_eq!(quarter.label_of(22), "05h30m");
}

#[test]
fn month_and_weekday_labels() {
    assert_eq!(LabelStyle::MonthName.label_of(0), "Jan");
    assert_eq!(LabelStyle::MonthName.label_of(11), "Dec");
    assert_eq!(LabelStyle::WeekdayName.label_of(0), "Mon");
    assert_eq!(LabelStyle::WeekdayName.label_of(6), "Sun");
}

#[test]
fn week_labels_follow_the_calendar() {
    let style = LabelStyle::WeekOf { first_day: day_number(2024, 1, 1) };
    assert_eq!(style.label_of(0), "Week of Jan 01, 2024");
    assert_eq!(style.label_of(1), "Week of Jan 08, 2024");
    assert_eq!(style.label_of(52), "Week of Dec 30, 2024");
}
