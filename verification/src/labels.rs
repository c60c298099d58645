//! Bucket labelling: each graph carries a label style, and every bucket
//! index is rendered through it.

use vstd::prelude::*;
use crate::num_fmt::padded_spec;
use crate::num_fmt::padded_to_string;

verus! {

/// What chrono prints for a day number (days since the start of the common
/// era) under the format `Week of %b %d, %Y`. The result depends on the day
/// number alone.
pub uninterp spec fn week_label_of(day: int) -> Seq<char>;

/// Relies on chrono's `NaiveDate::from_num_days_from_ce_opt` (which returns
/// `Some` for every day number admitted here) and `NaiveDate::format` with
/// the fixed English format `Week of %b %d, %Y`, whose output is a function
/// of the date alone.
#[verifier::external_body]
fn week_label(day: u32) -> (r: String)
    requires
        1 <= day <= 3000000,
    ensures
        r@ == week_label_of(day as int),
{
    let date = chrono::NaiveDate::from_num_days_from_ce_opt(day as i32).unwrap();
    date.format("Week of %b %d, %Y").to_string()
}

/// The English three-letter month abbreviation for month index `m` (0-based).
pub open spec fn month_name_spec(m: int) -> Seq<char> {
    if m == 0 {
        "Jan"@
    } else if m == 1 {
        "Feb"@
    } else if m == 2 {
        "Mar"@
    } else if m == 3 {
        "Apr"@
    } else if m == 4 {
        "May"@
    } else if m == 5 {
        "Jun"@
    } else if m == 6 {
        "Jul"@
    } else if m == 7 {
        "Aug"@
    } else if m == 8 {
        "Sep"@
    } else if m == 9 {
        "Oct"@
    } else if m == 10 {
        "Nov"@
    } else {
        "Dec"@
    }
}

/// The English three-letter weekday abbreviation, Monday first.
pub open spec fn weekday_name_spec(d: int) -> Seq<char> {
    if d == 0 {
        "Mon"@
    } else if d == 1 {
        "Tue"@
    } else if d == 2 {
        "Wed"@
    } else if d == 3 {
        "Thu"@
    } else if d == 4 {
        "Fri"@
    } else if d == 5 {
        "Sat"@
    } else {
        "Sun"@
    }
}

/// How a graph labels its buckets.
pub enum LabelStyle {
    /// Time-of-day grids: bucket `i` is labelled `HHhMMm` for the wall
    /// clock at which it starts, with the given number of minutes per
    /// bucket (which must divide 60).
    HourMinute { minutes_per_bucket: usize },
    /// Annual grids: bucket `i` is labelled with the month abbreviation.
    MonthName,
    /// Weekly grids: bucket `i` is labelled with the weekday abbreviation,
    /// Monday first.
    WeekdayName,
    /// Lifetime grids with one bucket per week: bucket `i` is labelled
    /// `Week of <date>` for the day `first_day + 7 * i`, counting days
    /// from the start of the common era.
    WeekOf { first_day: u32 },
}

/// The style's structural validity.
pub open spec fn style_wf(style: LabelStyle) -> bool {
    match style {
        LabelStyle::HourMinute { minutes_per_bucket } => 1 <= minutes_per_bucket
            && minutes_per_bucket <= 60 && 60int % (minutes_per_bucket as int) == 0,
        LabelStyle::MonthName => true,
        LabelStyle::WeekdayName => true,
        LabelStyle::WeekOf { first_day } => 1 <= first_day <= 2000000,
    }
}

/// Whether the style can label bucket `idx`.
pub open spec fn label_ok(style: LabelStyle, idx: int) -> bool {
    match style {
        LabelStyle::HourMinute { .. } => true,
        LabelStyle::MonthName => 0 <= idx < 12,
        LabelStyle::WeekdayName => 0 <= idx < 7,
        LabelStyle::WeekOf { first_day } => 0 <= idx && first_day + 7 * idx <= 3000000,
    }
}

/// The label of bucket `idx` under the style.
pub open spec fn label_spec(style: LabelStyle, idx: int) -> Seq<char> {
    match style {
        LabelStyle::HourMinute { minutes_per_bucket } => {
            let bph = 60int / (minutes_per_bucket as int);
            padded_spec(idx / bph, 2) + "h"@ + padded_spec((idx % bph) * (minutes_per_bucket as int), 2)
                + "m"@
        },
        LabelStyle::MonthName => month_name_spec(idx),
        LabelStyle::WeekdayName => weekday_name_spec(idx),
        LabelStyle::WeekOf { first_day } => week_label_of(first_day + 7 * idx),
    }
}

fn month_name(m: usize) -> (r: String)
    requires
        m < 12,
    ensures
        r@ == month_name_spec(m as int),
{
    match m {
        0 => String::from_str("Jan"),
        1 => String::from_str("Feb"),
        2 => String::from_str("Mar"),
        3 => String::from_str("Apr"),
        4 => String::from_str("May"),
        5 => String::from_str("Jun"),
        6 => String::from_str("Jul"),
        7 => String::from_str("Aug"),
        8 => String::from_str("Sep"),
        9 => String::from_str("Oct"),
        10 => String::from_str("Nov"),
        _ => String::from_str("Dec"),
    }
}

fn weekday_name(d: usize) -> (r: String)
    requires
        d < 7,
    ensures
        r@ == weekday_name_spec(d as int),
{
    match d {
        0 => String::from_str("Mon"),
        1 => String::from_str("Tue"),
        2 => String::from_str("Wed"),
        3 => String::from_str("Thu"),
        4 => String::from_str("Fri"),
        5 => String::from_str("Sat"),
        _ => String::from_str("Sun"),
    }
}

impl LabelStyle {
    /// Renders the label of bucket `idx`.
    pub fn label_of(&self, idx: usize) -> (r: String)
        requires
            style_wf(*self),
            label_ok(*self, idx as int),
        ensures
            r@ == label_spec(*self, idx as int),
    {
        match self {
            LabelStyle::HourMinute { minutes_per_bucket } => {
                proof {
                    assert(1 <= 60int / (*minutes_per_bucket as int) <= 60) by (nonlinear_arith)
                        requires
                            1 <= *minutes_per_bucket as int <= 60,
                    ;
                }
                let bph = 60 / *minutes_per_bucket;
                let hours = idx / bph;
                proof {
                    assert(0 <= idx as int % (bph as int) < bph as int) by {
                        vstd::arithmetic::div_mod::lemma_mod_bound(idx as int, bph as int);
                    }
                    assert((idx as int % (bph as int)) * (*minutes_per_bucket as int) <= (
                    bph as int - 1) * (*minutes_per_bucket as int)) by (nonlinear_arith)
                        requires
                            0 <= idx as int % (bph as int) <= bph as int - 1 && *minutes_per_bucket
                                >= 0,
                    ;
                    assert((bph as int - 1) * (*minutes_per_bucket as int) <= 60int
                        - *minutes_per_bucket) by (nonlinear_arith)
                        requires
                            bph as int == 60int / (*minutes_per_bucket as int) && 1
                                <= *minutes_per_bucket as int <= 60 && 60int % (*minutes_per_bucket as int)
                                == 0,
                    ;
                }
                let mins = (idx % bph) * *minutes_per_bucket;
                let mut s = padded_to_string(hours, 2);
                s.append("h");
                s.append(padded_to_string(mins, 2).as_str());
                s.append("m");
                assert(s@ =~= label_spec(*self, idx as int));
                s
            },
            LabelStyle::MonthName => month_name(idx),
            LabelStyle::WeekdayName => weekday_name(idx),
            LabelStyle::WeekOf { first_day } => {
                let day = *first_day as usize + 7 * idx;
                week_label(day as u32)
            },
        }
    }
}

} // verus!
