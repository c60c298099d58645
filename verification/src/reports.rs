//! The bucketed reports: each one maps its plain event records to a list of
//! (author, bucket, value) contributions, pours them into a `Graph`, and
//! renders it under the report's heading.

use vstd::prelude::*;
use crate::graph::{cell, find_author, names, Graph};
use crate::labels::{label_ok, LabelStyle};
use crate::reducer::Reducer;
use crate::render::{cells_of, render_ok, render_spec};
use crate::splitter::split_interval;

verus! {

/// One recorded contribution: a value for an author in a bucket.
pub struct AddOp {
    pub author: String,
    pub idx: usize,
    pub value: usize,
}

/// The plain data of a list of operations: resolved author column (-1 when
/// the author is not registered), bucket index, value.
pub open spec fn triples_of(authors: Seq<Seq<char>>, ops: Seq<AddOp>) -> Seq<(int, int, usize)> {
    ops.map_values(|o: AddOp| (find_author(authors, o.author@), o.idx as int, o.value))
}

/// The raw values that land in cell (bucket `b`, author column `j`) after
/// the contributions are applied in order.
pub open spec fn cell_after(tr: Seq<(int, int, usize)>, b: int, j: int) -> Seq<usize>
    decreases tr.len(),
{
    if tr.len() == 0 {
        Seq::empty()
    } else {
        let prev = cell_after(tr.drop_last(), b, j);
        let t = tr.last();
        if t.0 == j && t.1 == b {
            prev.push(t.2)
        } else {
            prev
        }
    }
}

/// How many buckets exist after the contributions: the array grows to the
/// highest bucket a registered author touched.
pub open spec fn buckets_after(tr: Seq<(int, int, usize)>) -> int
    decreases tr.len(),
{
    if tr.len() == 0 {
        0
    } else {
        let prev = buckets_after(tr.drop_last());
        let t = tr.last();
        if t.0 >= 0 && t.1 + 1 > prev {
            t.1 + 1
        } else {
            prev
        }
    }
}

/// The whole cell matrix after the contributions.
pub open spec fn matrix_after(tr: Seq<(int, int, usize)>, nauthors: int) -> Seq<Seq<Seq<usize>>> {
    Seq::new(
        buckets_after(tr) as nat,
        |b: int| Seq::new(nauthors as nat, |j: int| cell_after(tr, b, j)),
    )
}

pub proof fn lemma_buckets_nonneg(tr: Seq<(int, int, usize)>)
    ensures
        buckets_after(tr) >= 0,
    decreases tr.len(),
{
    if tr.len() > 0 {
        lemma_buckets_nonneg(tr.drop_last());
    }
}

/// Buckets past the grown range hold nothing.
pub proof fn lemma_cell_past_end(tr: Seq<(int, int, usize)>, b: int, j: int)
    requires
        j >= 0,
        b >= buckets_after(tr),
    ensures
        cell_after(tr, b, j) == Seq::<usize>::empty(),
    decreases tr.len(),
{
    if tr.len() > 0 {
        let t = tr.last();
        lemma_buckets_nonneg(tr.drop_last());
        if t.0 >= 0 && t.1 + 1 > buckets_after(tr.drop_last()) {
            assert(buckets_after(tr) == t.1 + 1);
        }
        lemma_cell_past_end(tr.drop_last(), b, j);
    }
}

/// Applies the contributions to the (empty) graph in order. Afterwards the
/// graph holds exactly the cell matrix the contribution list describes;
/// contributions by unregistered authors are ignored.
pub fn apply_ops(g: &mut Graph, ops: &Vec<AddOp>)
    requires
        old(g).wf(),
        old(g).data@.len() == 0,
        forall|i: int|
            0 <= i < ops@.len() ==> label_ok(
                old(g).label_style,
                (#[trigger] ops@[i]).idx as int,
            ) && ops@[i].idx < usize::MAX,
    ensures
        final(g).wf(),
        final(g).authors == old(g).authors,
        final(g).start_idx == old(g).start_idx,
        final(g).width == old(g).width,
        final(g).reducer == old(g).reducer,
        final(g).label_style == old(g).label_style,
        final(g).data@.len() == buckets_after(triples_of(names(old(g).authors@), ops@)),
        forall|b: int, j: int|
            0 <= b < final(g).data@.len() && 0 <= j < final(g).authors@.len() ==> #[trigger] cell(
                *final(g),
                b,
                j,
            ) == cell_after(triples_of(names(old(g).authors@), ops@), b, j),
{
    let ghost tr_all = triples_of(names(old(g).authors@), ops@);
    let mut i: usize = 0;
    while i < ops.len()
        invariant
            0 <= i <= ops@.len(),
            g.wf(),
            g.authors == old(g).authors,
            g.start_idx == old(g).start_idx,
            g.width == old(g).width,
            g.reducer == old(g).reducer,
            g.label_style == old(g).label_style,
            forall|k: int|
                0 <= k < ops@.len() ==> label_ok(
                    g.label_style,
                    (#[trigger] ops@[k]).idx as int,
                ) && ops@[k].idx < usize::MAX,
            tr_all == triples_of(names(old(g).authors@), ops@),
            g.data@.len() == buckets_after(tr_all.take(i as int)),
            forall|b: int, j: int|
                0 <= b < g.data@.len() && 0 <= j < g.authors@.len() ==> #[trigger] cell(*g, b, j)
                    == cell_after(tr_all.take(i as int), b, j),
        decreases ops@.len() - i,
    {
        let op = &ops[i];
        let ghost pre = *g;
        let ghost trp = tr_all.take(i as int);
        let ghost trn = tr_all.take(i + 1);
        let r = g.add(op.author.as_str(), op.idx, op.value);
        proof {
            assert(trn.drop_last() =~= trp);
            assert(trn.last() == tr_all[i as int]);
            assert(tr_all[i as int] == (
                find_author(names(old(g).authors@), ops@[i as int].author@),
                ops@[i as int].idx as int,
                ops@[i as int].value,
            ));
            let a = find_author(names(pre.authors@), op.author@);
            lemma_buckets_nonneg(trp);
            if r {
                assert(g.data@.len() == buckets_after(trn));
                assert forall|b: int, j: int|
                    0 <= b < g.data@.len() && 0 <= j < g.authors@.len() implies #[trigger] cell(
                    *g,
                    b,
                    j,
                ) == cell_after(trn, b, j) by {
                    if b == op.idx && j == a {
                        if b >= pre.data@.len() {
                            lemma_cell_past_end(trp, b, j);
                        }
                    } else {
                        if b >= pre.data@.len() {
                            lemma_cell_past_end(trp, b, j);
                        }
                    }
                }
            } else {
                assert(buckets_after(trn) == buckets_after(trp));
                assert forall|b: int, j: int|
                    0 <= b < g.data@.len() && 0 <= j < g.authors@.len() implies #[trigger] cell(
                    *g,
                    b,
                    j,
                ) == cell_after(trn, b, j) by {
                    assert(cell(*g, b, j) == cell(pre, b, j));
                }
            }
        }
        i = i + 1;
    }
    proof {
        assert(tr_all.take(ops@.len() as int) =~= tr_all);
    }
}

} // verus!

verus! {

/// A conversation channel: its identity and the ordered author registry
/// that fixes each author's column and colour slot.
pub struct ChannelInfo {
    pub id: u64,
    pub name: String,
    pub authors: Vec<String>,
}

/// One participant of a conversation.
pub struct Author {
    pub id: u64,
    pub nickname: String,
    pub name: String,
}

/// One voice call, as plain wall-clock values: the author's name, the call's
/// start instant as milliseconds into its day, its duration, and the month
/// and weekday (both 0-based, weeks starting Monday) of its start.
pub struct CallRecord {
    pub author: String,
    pub start_ms_of_day: usize,
    pub duration_ms: usize,
    pub month0: usize,
    pub weekday0: usize,
}

/// One text message: the author's name, the send instant as milliseconds
/// into its day, the day number (days from the start of the common era),
/// and the day's 0-based ordinal within its year.
pub struct TextRecord {
    pub author: String,
    pub ms_of_day: usize,
    pub day_ce: usize,
    pub ordinal0: usize,
}

/// A call record whose fields are mutually consistent wall-clock values.
pub open spec fn call_record_ok(c: CallRecord) -> bool {
    c.start_ms_of_day < 86400000 && c.month0 < 12 && c.weekday0 < 7
}

/// A text record whose fields are consistent wall-clock values; the day
/// range covers all of recorded history while keeping week labels inside
/// the calendar's range.
pub open spec fn text_record_ok(t: TextRecord) -> bool {
    t.ms_of_day < 86400000 && 366 <= t.day_ce <= 2000000 && t.ordinal0 < 366
}

/// Renders the graph under the report's heading, or `None` when its data
/// leaves the engine's documented bounds.
fn finish_report(g: &Graph, header: &str) -> (r: Option<String>)
    requires
        g.wf(),
    ensures
        match r {
            Some(s) => render_ok(g.reducer, cells_of(*g), g.authors@.len() as int) && s@ == header@
                + render_spec(
                names(g.authors@),
                g.label_style,
                g.reducer,
                cells_of(*g),
                g.start_idx as int,
                g.width as int,
            ) + "\n"@,
            None => !render_ok(g.reducer, cells_of(*g), g.authors@.len() as int),
        },
{
    match g.try_render() {
        Some(body) => {
            let mut s = String::from_str(header);
            s.append(body.as_str());
            s.append("\n");
            proof {
                assert(s@ =~= header@ + render_spec(
                    names(g.authors@),
                    g.label_style,
                    g.reducer,
                    cells_of(*g),
                    g.start_idx as int,
                    g.width as int,
                ) + "\n"@);
            }
            Some(s)
        },
        None => None,
    }
}

/// The contributions of the call-start report: one count per call of at
/// least fifteen seconds, in the quarter-hour bucket of its start.
pub open spec fn call_start_triples(authors: Seq<Seq<char>>, calls: Seq<CallRecord>) -> Seq<
    (int, int, usize),
>
    decreases calls.len(),
{
    if calls.len() == 0 {
        Seq::empty()
    } else {
        let prev = call_start_triples(authors, calls.drop_last());
        let c = calls.last();
        if c.duration_ms >= 15000 {
            prev.push(
                (find_author(authors, c.author@), c.start_ms_of_day as int / 900000, 1usize),
            )
        } else {
            prev
        }
    }
}

/// When a call starts: a count per quarter-hour of the day, for calls of at
/// least fifteen seconds, rendered as a rotated time-of-day graph.
pub fn call_start_time_of_day_graph(authors: Vec<String>, calls: &Vec<CallRecord>) -> (r: Option<
    String,
>)
    requires
        forall|k: int| 0 <= k < calls@.len() ==> call_record_ok(#[trigger] calls@[k]),
    ensures
        ({
            let ns = names(authors@);
            let m = matrix_after(call_start_triples(ns, calls@), ns.len() as int);
            match r {
                Some(s) => render_ok(Reducer::Sum, m, ns.len() as int) && s@
                    == "\n# Call Start Time of Day Graph (min = 15s, 15m groupings)\n"@
                    + render_spec(
                    ns,
                    LabelStyle::HourMinute { minutes_per_bucket: 15 },
                    Reducer::Sum,
                    m,
                    22,
                    50,
                ) + "\n"@,
                None => !render_ok(Reducer::Sum, m, ns.len() as int),
            }
        }),
{
    let ghost ns = names(authors@);
    let mut ops: Vec<AddOp> = Vec::new();
    let mut i: usize = 0;
    proof {
        assert(triples_of(ns, ops@) =~= call_start_triples(ns, calls@.take(0)));
    }
    while i < calls.len()
        invariant
            0 <= i <= calls@.len(),
            ns == names(authors@),
            forall|k: int| 0 <= k < calls@.len() ==> call_record_ok(#[trigger] calls@[k]),
            triples_of(ns, ops@) == call_start_triples(ns, calls@.take(i as int)),
            forall|k: int| 0 <= k < ops@.len() ==> (#[trigger] ops@[k]).idx < 96,
        decreases calls@.len() - i,
    {
        let c = &calls[i];
        proof {
            assert(calls@.take(i + 1).drop_last() =~= calls@.take(i as int));
            assert(calls@.take(i + 1).last() == calls@[i as int]);
        }
        if c.duration_ms >= 15000 {
            proof {
                assert(c.start_ms_of_day as int / 900000 < 96) by (nonlinear_arith)
                    requires
                        0 <= c.start_ms_of_day < 86400000,
                ;
            }
            let idx = c.start_ms_of_day / 900000;
            ops.push(AddOp { author: c.author.clone(), idx, value: 1 });
            proof {
                assert(triples_of(ns, ops@) =~= call_start_triples(ns, calls@.take(i + 1)));
            }
        }
        i = i + 1;
    }
    proof {
        assert(calls@.take(calls@.len() as int) =~= calls@);
    }
    let mut g = Graph::new(
        authors,
        22,
        LabelStyle::HourMinute { minutes_per_bucket: 15 },
        Reducer::Sum,
        50,
    );
    apply_ops(&mut g, &ops);
    proof {
        assert(cells_of(g) =~~= matrix_after(call_start_triples(ns, calls@), ns.len() as int));
    }
    finish_report(&g, "\n# Call Start Time of Day Graph (min = 15s, 15m groupings)\n")
}

} // verus!

verus! {

/// The contributions of the text-frequency report: one count per message,
/// in the ten-minute bucket of its send time.
pub open spec fn text_tod_triples(authors: Seq<Seq<char>>, texts: Seq<TextRecord>) -> Seq<
    (int, int, usize),
>
    decreases texts.len(),
{
    if texts.len() == 0 {
        Seq::empty()
    } else {
        text_tod_triples(authors, texts.drop_last()).push(
            (
                find_author(authors, texts.last().author@),
                texts.last().ms_of_day as int / 600000,
                1usize,
            ),
        )
    }
}

/// When texts are sent: a count per ten-minute bucket of the day, rendered
/// as a rotated time-of-day graph.
pub fn text_time_of_day_graph(authors: Vec<String>, texts: &Vec<TextRecord>) -> (r: Option<String>)
    requires
        forall|k: int| 0 <= k < texts@.len() ==> text_record_ok(#[trigger] texts@[k]),
    ensures
        ({
            let ns = names(authors@);
            let m = matrix_after(text_tod_triples(ns, texts@), ns.len() as int);
            match r {
                Some(s) => render_ok(Reducer::Sum, m, ns.len() as int) && s@
                    == "\n# Text Time of Day Graph (10m groupings)\n"@ + render_spec(
                    ns,
                    LabelStyle::HourMinute { minutes_per_bucket: 10 },
                    Reducer::Sum,
                    m,
                    33,
                    50,
                ) + "\n"@,
                None => !render_ok(Reducer::Sum, m, ns.len() as int),
            }
        }),
{
    let ghost ns = names(authors@);
    let mut ops: Vec<AddOp> = Vec::new();
    let mut i: usize = 0;
    proof {
        assert(triples_of(ns, ops@) =~= text_tod_triples(ns, texts@.take(0)));
    }
    while i < texts.len()
        invariant
            0 <= i <= texts@.len(),
            ns == names(authors@),
            forall|k: int| 0 <= k < texts@.len() ==> text_record_ok(#[trigger] texts@[k]),
            triples_of(ns, ops@) == text_tod_triples(ns, texts@.take(i as int)),
            forall|k: int| 0 <= k < ops@.len() ==> (#[trigger] ops@[k]).idx < 144,
        decreases texts@.len() - i,
    {
        let t = &texts[i];
        proof {
            assert(texts@.take(i + 1).drop_last() =~= texts@.take(i as int));
            assert(texts@.take(i + 1).last() == texts@[i as int]);
            assert(t.ms_of_day as int / 600000 < 144) by (nonlinear_arith)
                requires
                    0 <= t.ms_of_day < 86400000,
            ;
        }
        let idx = t.ms_of_day / 600000;
        ops.push(AddOp { author: t.author.clone(), idx, value: 1 });
        proof {
            assert(triples_of(ns, ops@) =~= text_tod_triples(ns, texts@.take(i + 1)));
        }
        i = i + 1;
    }
    proof {
        assert(texts@.take(texts@.len() as int) =~= texts@);
    }
    let mut g = Graph::new(
        authors,
        33,
        LabelStyle::HourMinute { minutes_per_bucket: 10 },
        Reducer::Sum,
        50,
    );
    apply_ops(&mut g, &ops);
    proof {
        assert(cells_of(g) =~~= matrix_after(text_tod_triples(ns, texts@), ns.len() as int));
    }
    finish_report(&g, "\n# Text Time of Day Graph (10m groupings)\n")
}

/// The contributions of the monthly duration report: each qualifying call's
/// duration, in the bucket of its start month.
pub open spec fn month_triples(authors: Seq<Seq<char>>, calls: Seq<CallRecord>) -> Seq<
    (int, int, usize),
>
    decreases calls.len(),
{
    if calls.len() == 0 {
        Seq::empty()
    } else {
        let prev = month_triples(authors, calls.drop_last());
        let c = calls.last();
        if c.duration_ms >= 15000 {
            prev.push((find_author(authors, c.author@), c.month0 as int, c.duration_ms))
        } else {
            prev
        }
    }
}

/// Average call duration per month of the year, for calls of at least
/// fifteen seconds, under the channel's name.
pub fn call_duration_by_month_graph(channel_name: String, calls: &Vec<CallRecord>) -> (r: Option<
    String,
>)
    requires
        forall|k: int| 0 <= k < calls@.len() ==> call_record_ok(#[trigger] calls@[k]),
    ensures
        ({
            let ns = seq![channel_name@];
            let m = matrix_after(month_triples(ns, calls@), 1);
            match r {
                Some(s) => render_ok(Reducer::Average, m, 1) && s@
                    == "\n# Call Duration by Month Graph (min = 15s)\n"@ + render_spec(
                    ns,
                    LabelStyle::MonthName,
                    Reducer::Average,
                    m,
                    0,
                    50,
                ) + "\n"@,
                None => !render_ok(Reducer::Average, m, 1),
            }
        }),
{
    let ghost cname = channel_name@;
    let authors: Vec<String> = vec![channel_name];
    let ghost ns = names(authors@);
    proof {
        assert(ns =~= seq![cname]);
    }
    let mut ops: Vec<AddOp> = Vec::new();
    let mut i: usize = 0;
    proof {
        assert(triples_of(ns, ops@) =~= month_triples(ns, calls@.take(0)));
    }
    while i < calls.len()
        invariant
            0 <= i <= calls@.len(),
            ns == names(authors@),
            forall|k: int| 0 <= k < calls@.len() ==> call_record_ok(#[trigger] calls@[k]),
            triples_of(ns, ops@) == month_triples(ns, calls@.take(i as int)),
            forall|k: int| 0 <= k < ops@.len() ==> (#[trigger] ops@[k]).idx < 12,
        decreases calls@.len() - i,
    {
        let c = &calls[i];
        proof {
            assert(calls@.take(i + 1).drop_last() =~= calls@.take(i as int));
            assert(calls@.take(i + 1).last() == calls@[i as int]);
        }
        if c.duration_ms >= 15000 {
            ops.push(AddOp { author: c.author.clone(), idx: c.month0, value: c.duration_ms });
            proof {
                assert(triples_of(ns, ops@) =~= month_triples(ns, calls@.take(i + 1)));
            }
        }
        i = i + 1;
    }
    proof {
        assert(calls@.take(calls@.len() as int) =~= calls@);
    }
    let mut g = Graph::new(authors, 0, LabelStyle::MonthName, Reducer::Average, 50);
    apply_ops(&mut g, &ops);
    proof {
        assert(cells_of(g) =~~= matrix_after(month_triples(ns, calls@), 1));
    }
    finish_report(&g, "\n# Call Duration by Month Graph (min = 15s)\n")
}

/// The contributions of the weekday duration report: each qualifying
/// call's duration, in the bucket of its start weekday.
pub open spec fn weekday_triples(authors: Seq<Seq<char>>, calls: Seq<CallRecord>) -> Seq<
    (int, int, usize),
>
    decreases calls.len(),
{
    if calls.len() == 0 {
        Seq::empty()
    } else {
        let prev = weekday_triples(authors, calls.drop_last());
        let c = calls.last();
        if c.duration_ms >= 15000 {
            prev.push((find_author(authors, c.author@), c.weekday0 as int, c.duration_ms))
        } else {
            prev
        }
    }
}

/// Average call duration per weekday, for calls of at least fifteen
/// seconds, under the channel's name.
pub fn call_duration_by_day_of_week_graph(channel_name: String, calls: &Vec<CallRecord>) -> (r:
    Option<String>)
    requires
        forall|k: int| 0 <= k < calls@.len() ==> call_record_ok(#[trigger] calls@[k]),
    ensures
        ({
            let ns = seq![channel_name@];
            let m = matrix_after(weekday_triples(ns, calls@), 1);
            match r {
                Some(s) => render_ok(Reducer::Average, m, 1) && s@
                    == "\n# Call Duration by Day of Week Graph (min = 15s)\n"@ + render_spec(
                    ns,
                    LabelStyle::WeekdayName,
                    Reducer::Average,
                    m,
                    0,
                    50,
                ) + "\n"@,
                None => !render_ok(Reducer::Average, m, 1),
            }
        }),
{
    let ghost cname = channel_name@;
    let authors: Vec<String> = vec![channel_name];
    let ghost ns = names(authors@);
    proof {
        assert(ns =~= seq![cname]);
    }
    let mut ops: Vec<AddOp> = Vec::new();
    let mut i: usize = 0;
    proof {
        assert(triples_of(ns, ops@) =~= weekday_triples(ns, calls@.take(0)));
    }
    while i < calls.len()
        invariant
            0 <= i <= calls@.len(),
            ns == names(authors@),
            forall|k: int| 0 <= k < calls@.len() ==> call_record_ok(#[trigger] calls@[k]),
            triples_of(ns, ops@) == weekday_triples(ns, calls@.take(i as int)),
            forall|k: int| 0 <= k < ops@.len() ==> (#[trigger] ops@[k]).idx < 7,
        decreases calls@.len() - i,
    {
        let c = &calls[i];
        proof {
            assert(calls@.take(i + 1).drop_last() =~= calls@.take(i as int));
            assert(calls@.take(i + 1).last() == calls@[i as int]);
        }
        if c.duration_ms >= 15000 {
            ops.push(AddOp { author: c.author.clone(), idx: c.weekday0, value: c.duration_ms });
            proof {
                assert(triples_of(ns, ops@) =~= weekday_triples(ns, calls@.take(i + 1)));
            }
        }
        i = i + 1;
    }
    proof {
        assert(calls@.take(calls@.len() as int) =~= calls@);
    }
    let mut g = Graph::new(authors, 0, LabelStyle::WeekdayName, Reducer::Average, 50);
    apply_ops(&mut g, &ops);
    proof {
        assert(cells_of(g) =~~= matrix_after(weekday_triples(ns, calls@), 1));
    }
    finish_report(&g, "\n# Call Duration by Day of Week Graph (min = 15s)\n")
}

} // verus!

verus! {

/// The contributions of one split interval, attributed to author column `a`.
pub open spec fn piece_triples(a: int, parts: Seq<(usize, usize)>) -> Seq<(int, int, usize)> {
    parts.map_values(|p: (usize, usize)| (a, p.0 as int, p.1))
}

/// The contributions of the daily call graph: each qualifying call's
/// duration, split across the ten-minute buckets it overlaps (wrapping
/// past midnight).
pub open spec fn call_graph_triples(authors: Seq<Seq<char>>, calls: Seq<CallRecord>) -> Seq<
    (int, int, usize),
>
    decreases calls.len(),
{
    if calls.len() == 0 {
        Seq::empty()
    } else {
        let prev = call_graph_triples(authors, calls.drop_last());
        let c = calls.last();
        if c.duration_ms >= 15000 {
            prev + piece_triples(
                find_author(authors, c.author@),
                crate::splitter::split_spec(
                    c.start_ms_of_day as int,
                    c.duration_ms as int,
                    600000,
                    144,
                ),
            )
        } else {
            prev
        }
    }
}

/// Call time per ten-minute bucket of the day, each call of at least
/// fifteen seconds apportioned by the interval splitter, rendered as a
/// rotated time-of-day graph.
pub fn call_graph(authors: Vec<String>, calls: &Vec<CallRecord>) -> (r: Option<String>)
    requires
        forall|k: int| 0 <= k < calls@.len() ==> call_record_ok(#[trigger] calls@[k]),
    ensures
        ({
            let ns = names(authors@);
            let m = matrix_after(call_graph_triples(ns, calls@), ns.len() as int);
            match r {
                Some(s) => render_ok(Reducer::Sum, m, ns.len() as int) && s@
                    == "\n# Call Graph (10m groupings, min = 15s)\n"@ + render_spec(
                    ns,
                    LabelStyle::HourMinute { minutes_per_bucket: 10 },
                    Reducer::Sum,
                    m,
                    33,
                    50,
                ) + "\n"@,
                None => !render_ok(Reducer::Sum, m, ns.len() as int),
            }
        }),
{
    let ghost ns = names(authors@);
    let mut ops: Vec<AddOp> = Vec::new();
    let mut i: usize = 0;
    proof {
        assert(triples_of(ns, ops@) =~= call_graph_triples(ns, calls@.take(0)));
    }
    while i < calls.len()
        invariant
            0 <= i <= calls@.len(),
            ns == names(authors@),
            forall|k: int| 0 <= k < calls@.len() ==> call_record_ok(#[trigger] calls@[k]),
            triples_of(ns, ops@) == call_graph_triples(ns, calls@.take(i as int)),
            forall|k: int| 0 <= k < ops@.len() ==> (#[trigger] ops@[k]).idx < 144,
        decreases calls@.len() - i,
    {
        let c = &calls[i];
        proof {
            assert(calls@.take(i + 1).drop_last() =~= calls@.take(i as int));
            assert(calls@.take(i + 1).last() == calls@[i as int]);
        }
        if c.duration_ms >= 15000 {
            let parts = split_interval(c.start_ms_of_day, c.duration_ms, 600000, 144);
            let ghost a = find_author(ns, c.author@);
            let ghost base = triples_of(ns, ops@);
            let mut p: usize = 0;
            proof {
                assert(base + piece_triples(a, parts@.take(0)) =~= base);
            }
            while p < parts.len()
                invariant
                    0 <= p <= parts@.len(),
                    0 <= i < calls@.len(),
                    ns == names(authors@),
                    a == find_author(ns, c.author@),
                    c.author@ == calls@[i as int].author@,
                    triples_of(ns, ops@) == base + piece_triples(a, parts@.take(p as int)),
                    forall|k: int| 0 <= k < parts@.len() ==> (#[trigger] parts@[k]).0 < 144,
                    forall|k: int| 0 <= k < ops@.len() ==> (#[trigger] ops@[k]).idx < 144,
                decreases parts@.len() - p,
            {
                let part = parts[p];
                let ghost ops_pre = ops@;
                ops.push(AddOp { author: c.author.clone(), idx: part.0, value: part.1 });
                proof {
                    assert(parts@.take(p + 1).drop_last() =~= parts@.take(p as int));
                    assert(parts@.take(p + 1).last() == parts@[p as int]);
                    assert(ops@.last().author@ == c.author@);
                    assert(ops@.drop_last() =~= ops_pre);
                    assert(triples_of(ns, ops@).len() == ops_pre.len() + 1);
                    assert forall|m: int| 0 <= m < ops_pre.len() implies triples_of(ns, ops@)[m]
                        == triples_of(ns, ops_pre)[m] by {
                        assert(ops@[m] == ops_pre[m]);
                    }
                    assert(triples_of(ns, ops@)[ops_pre.len() as int] == (
                        a,
                        parts@[p as int].0 as int,
                        parts@[p as int].1,
                    ));
                    assert(piece_triples(a, parts@.take(p + 1))[p as int] == (
                        a,
                        parts@[p as int].0 as int,
                        parts@[p as int].1,
                    ));
                    let ghost tnew = (a, part.0 as int, part.1);
                    assert(triples_of(ns, ops@) =~= triples_of(ns, ops_pre).push(tnew));
                    assert(piece_triples(a, parts@.take(p + 1)) =~= piece_triples(
                        a,
                        parts@.take(p as int),
                    ).push(tnew)) by {
                        assert(parts@.take(p + 1)[p as int] == parts@[p as int]);
                        assert forall|m: int| 0 <= m < p implies piece_triples(
                            a,
                            parts@.take(p as int),
                        )[m] == piece_triples(a, parts@.take(p + 1))[m] by {
                            assert(parts@.take(p as int)[m] == parts@[m]);
                            assert(parts@.take(p + 1)[m] == parts@[m]);
                        }
                    }
                    assert(base + piece_triples(a, parts@.take(p as int)).push(tnew) =~= (base
                        + piece_triples(a, parts@.take(p as int))).push(tnew));
                    assert(triples_of(ns, ops@) == base + piece_triples(a, parts@.take(p + 1)));
                }
                p = p + 1;
            }
            proof {
                assert(parts@.take(parts@.len() as int) =~= parts@);
                assert(triples_of(ns, ops@) == call_graph_triples(ns, calls@.take(i + 1)));
            }
        }
        i = i + 1;
    }
    proof {
        assert(calls@.take(calls@.len() as int) =~= calls@);
    }
    let mut g = Graph::new(
        authors,
        33,
        LabelStyle::HourMinute { minutes_per_bucket: 10 },
        Reducer::Sum,
        50,
    );
    apply_ops(&mut g, &ops);
    proof {
        assert(cells_of(g) =~~= matrix_after(call_graph_triples(ns, calls@), ns.len() as int));
    }
    finish_report(&g, "\n# Call Graph (10m groupings, min = 15s)\n")
}

/// The position of the earliest day in the records, the first one on ties.
pub open spec fn first_min_idx(texts: Seq<TextRecord>) -> int
    decreases texts.len(),
{
    if texts.len() <= 1 {
        0
    } else {
        let p = first_min_idx(texts.drop_last());
        if (texts.last().day_ce as int) < texts[p].day_ce as int {
            texts.len() - 1
        } else {
            p
        }
    }
}

/// The first day of the week grid: the earliest record's day, snapped back
/// to the start of its week within its year.
pub open spec fn week_start_spec(texts: Seq<TextRecord>) -> int {
    let p = first_min_idx(texts);
    texts[p].day_ce - texts[p].ordinal0 as int % 7
}

/// The contributions of the texting-frequency report: one count per
/// message, in the bucket of its week since the grid's first week.
pub open spec fn week_triples(authors: Seq<Seq<char>>, texts: Seq<TextRecord>, ws: int) -> Seq<
    (int, int, usize),
>
    decreases texts.len(),
{
    if texts.len() == 0 {
        Seq::empty()
    } else {
        week_triples(authors, texts.drop_last(), ws).push(
            (
                find_author(authors, texts.last().author@),
                (texts.last().day_ce - ws) / 7,
                1usize,
            ),
        )
    }
}

/// Message counts per week of the conversation's lifetime, the grid
/// anchored at the earliest message's week. `None` when there are no
/// messages at all.
pub fn texting_frequency(authors: Vec<String>, texts: &Vec<TextRecord>) -> (r: Option<String>)
    requires
        forall|k: int| 0 <= k < texts@.len() ==> text_record_ok(#[trigger] texts@[k]),
    ensures
        ({
            let ns = names(authors@);
            let ws = week_start_spec(texts@);
            let m = matrix_after(week_triples(ns, texts@, ws), ns.len() as int);
            match r {
                Some(s) => texts@.len() > 0 && render_ok(Reducer::Sum, m, ns.len() as int) && s@
                    == "\n#Texting Frequency (Lifetime Graph; Weekly Buckets)\n"@ + render_spec(
                    ns,
                    LabelStyle::WeekOf { first_day: ws as u32 },
                    Reducer::Sum,
                    m,
                    0,
                    50,
                ) + "\n"@,
                None => texts@.len() == 0 || !render_ok(Reducer::Sum, m, ns.len() as int),
            }
        }),
{
    if texts.len() == 0 {
        return None;
    }
    let mut mi: usize = 0;
    let mut i: usize = 1;
    proof {
        assert(texts@.take(1int).len() == 1);
        assert(first_min_idx(texts@.take(1int)) == 0);
        assert(texts@.take(1int)[0] == texts@[0]);
    }
    while i < texts.len()
        invariant
            1 <= i <= texts@.len(),
            0 <= mi < i,
            texts@.len() > 0,
            mi as int == first_min_idx(texts@.take(i as int)),
            forall|k: int|
                0 <= k < i ==> texts@[mi as int].day_ce <= (#[trigger] texts@[k]).day_ce,
        decreases texts@.len() - i,
    {
        proof {
            assert(texts@.take(i + 1).drop_last() =~= texts@.take(i as int));
            assert(texts@.take(i + 1).last() == texts@[i as int]);
            assert(texts@.take(i + 1)[mi as int] == texts@[mi as int]);
        }
        if texts[i].day_ce < texts[mi].day_ce {
            mi = i;
        }
        i = i + 1;
    }
    proof {
        assert(texts@.take(texts@.len() as int) =~= texts@);
    }
    let ws = texts[mi].day_ce - texts[mi].ordinal0 % 7;
    proof {
        assert(texts@[mi as int].ordinal0 % 7 < 7) by {
            vstd::arithmetic::div_mod::lemma_mod_bound(texts@[mi as int].ordinal0 as int, 7);
        }
        assert(ws as int == week_start_spec(texts@));
        assert(360 <= ws <= 2000000);
    }
    let ghost ns = names(authors@);
    let mut ops: Vec<AddOp> = Vec::new();
    let mut t: usize = 0;
    proof {
        assert(triples_of(ns, ops@) =~= week_triples(ns, texts@.take(0), ws as int));
    }
    while t < texts.len()
        invariant
            0 <= t <= texts@.len(),
            ns == names(authors@),
            360 <= ws <= 2000000,
            forall|k: int| 0 <= k < texts@.len() ==> text_record_ok(#[trigger] texts@[k]),
            forall|k: int| 0 <= k < texts@.len() ==> ws <= (#[trigger] texts@[k]).day_ce,
            triples_of(ns, ops@) == week_triples(ns, texts@.take(t as int), ws as int),
            forall|k: int|
                0 <= k < ops@.len() ==> ws + 7 * ((#[trigger] ops@[k]).idx as int) <= 3000000
                    && ops@[k].idx < usize::MAX,
        decreases texts@.len() - t,
    {
        let tx = &texts[t];
        proof {
            assert(texts@.take(t + 1).drop_last() =~= texts@.take(t as int));
            assert(texts@.take(t + 1).last() == texts@[t as int]);
            assert((tx.day_ce - ws) as int == tx.day_ce as int - ws as int);
            assert(7 * ((tx.day_ce - ws) as int / 7) <= tx.day_ce as int - ws as int && 0 <= (
            tx.day_ce - ws) as int / 7) by {
                vstd::arithmetic::div_mod::lemma_fundamental_div_mod(
                    tx.day_ce as int - ws as int,
                    7,
                );
                vstd::arithmetic::div_mod::lemma_mod_bound(tx.day_ce as int - ws as int, 7);
            }
        }
        let idx = (tx.day_ce - ws) / 7;
        ops.push(AddOp { author: tx.author.clone(), idx, value: 1 });
        proof {
            assert(triples_of(ns, ops@) =~= week_triples(ns, texts@.take(t + 1), ws as int));
        }
        t = t + 1;
    }
    proof {
        assert(texts@.take(texts@.len() as int) =~= texts@);
    }
    let mut g = Graph::new(
        authors,
        0,
        LabelStyle::WeekOf { first_day: ws as u32 },
        Reducer::Sum,
        50,
    );
    apply_ops(&mut g, &ops);
    proof {
        assert(cells_of(g) =~~= matrix_after(week_triples(ns, texts@, ws as int), ns.len() as int));
    }
    finish_report(&g, "\n#Texting Frequency (Lifetime Graph; Weekly Buckets)\n")
}

} // verus!
