//! The raster renderer: the same interval-splitting pipeline at 15-second
//! granularity, drawn as stacked, semi-transparent per-author bars onto an
//! opaque background, one image column per bucket.

use vstd::prelude::*;
use crate::graph::{find_author, names};
use crate::reports::{call_record_ok, piece_triples, CallRecord};
use crate::splitter::{parts_sum_spec, split_interval, split_spec};
use crate::stats::MAX_BUCKET_TOTAL;

verus! {

/// One bucket per 15 seconds of the day.
pub const RASTER_BUCKETS: usize = 5760;

/// The width of one raster bucket in milliseconds.
pub const RASTER_BUCKET_MS: usize = 15000;

/// Rotation applied when mapping image columns to buckets, so the visual
/// day starts at the configured hour rather than midnight (11/48 of a day,
/// i.e. 05:30).
pub const RASTER_ROTATION: usize = 1320;

/// The target aspect ratio of the image, width to height, as a fraction.
pub const ASPECT_NUM: usize = 710;

/// Denominator of the target aspect ratio.
pub const ASPECT_DEN: usize = 113;

/// One RGBA pixel.
#[derive(Copy, Clone, PartialEq, Eq, Structural, Debug)]
pub struct Pixel {
    pub r: u8,
    pub g: u8,
    pub b: u8,
    pub a: u8,
}

/// The image: `width` columns of `height` pixels each, top row first.
pub struct RasterImage {
    pub width: usize,
    pub height: usize,
    pub columns: Vec<Vec<Pixel>>,
}

/// The opaque background colour of the canvas.
pub open spec fn background_spec() -> Pixel {
    Pixel { r: 0x31, g: 0x33, b: 0x38, a: 0xFF }
}

fn background() -> (p: Pixel)
    ensures
        p == background_spec(),
{
    Pixel { r: 0x31, g: 0x33, b: 0x38, a: 0xFF }
}

/// The fixed colour of author column `idx`: a palette of three colours,
/// cycled.
pub open spec fn palette_spec(idx: int) -> Pixel {
    if idx % 3 == 0 {
        Pixel { r: 0x98, g: 0xC3, b: 0x79, a: 0xFF }
    } else if idx % 3 == 1 {
        Pixel { r: 0xE5, g: 0xC0, b: 0x7B, a: 0xFF }
    } else {
        Pixel { r: 0x5E, g: 0xAC, b: 0xEC, a: 0xFF }
    }
}

fn palette(idx: usize) -> (p: Pixel)
    ensures
        p == palette_spec(idx as int),
{
    match idx % 3 {
        0 => Pixel { r: 0x98, g: 0xC3, b: 0x79, a: 0xFF },
        1 => Pixel { r: 0xE5, g: 0xC0, b: 0x7B, a: 0xFF },
        _ => Pixel { r: 0x5E, g: 0xAC, b: 0xEC, a: 0xFF },
    }
}

/// One channel of an "over" blend: the new channel weighted by the alpha,
/// the existing one by its complement.
pub open spec fn blend_channel_spec(dst: int, src: int, alpha: int) -> int {
    (src * alpha + dst * (255 - alpha)) / 255
}

/// An "over" blend of a semi-transparent colour onto an opaque pixel: each
/// colour channel is mixed by the alpha; the canvas stays opaque.
pub open spec fn blend_spec(dst: Pixel, src: Pixel, alpha: int) -> Pixel {
    Pixel {
        r: blend_channel_spec(dst.r as int, src.r as int, alpha) as u8,
        g: blend_channel_spec(dst.g as int, src.g as int, alpha) as u8,
        b: blend_channel_spec(dst.b as int, src.b as int, alpha) as u8,
        a: dst.a,
    }
}

fn blend_channel(dst: u8, src: u8, alpha: u64) -> (r: u8)
    requires
        alpha <= 255,
    ensures
        r == blend_channel_spec(dst as int, src as int, alpha as int),
{
    proof {
        assert(src as int * alpha as int + dst as int * (255 - alpha as int) <= 255 * 255) by (nonlinear_arith)
            requires
                0 <= src as int <= 255 && 0 <= dst as int <= 255 && 0 <= alpha as int <= 255,
        ;
        assert((src as int * alpha as int + dst as int * (255 - alpha as int)) / 255 <= 255) by (nonlinear_arith)
            requires
                0 <= src as int * alpha as int + dst as int * (255 - alpha as int) <= 255 * 255,
        ;
        assert((src as int * alpha as int + dst as int * (255 - alpha as int)) / 255 >= 0) by (nonlinear_arith)
            requires
                src as int * alpha as int + dst as int * (255 - alpha as int) >= 0,
        ;
    }
    (((src as u32) * (alpha as u32) + (dst as u32) * (255 - alpha as u32)) / 255) as u8
}

fn blend(dst: Pixel, src: Pixel, alpha: u64) -> (r: Pixel)
    requires
        alpha <= 255,
    ensures
        r == blend_spec(dst, src, alpha as int),
{
    Pixel {
        r: blend_channel(dst.r, src.r, alpha),
        g: blend_channel(dst.g, src.g, alpha),
        b: blend_channel(dst.b, src.b, alpha),
        a: dst.a,
    }
}

/// The raster's contributions: each qualifying call's duration split over
/// the 15-second buckets it overlaps.
pub open spec fn raster_triples(authors: Seq<Seq<char>>, calls: Seq<CallRecord>) -> Seq<
    (int, int, usize),
>
    decreases calls.len(),
{
    if calls.len() == 0 {
        Seq::empty()
    } else {
        let prev = raster_triples(authors, calls.drop_last());
        let c = calls.last();
        if c.duration_ms >= 15000 {
            prev + piece_triples(
                find_author(authors, c.author@),
                split_spec(
                    c.start_ms_of_day as int,
                    c.duration_ms as int,
                    RASTER_BUCKET_MS as int,
                    RASTER_BUCKETS as int,
                ),
            )
        } else {
            prev
        }
    }
}

/// The total of all contributed values.
pub open spec fn value_sum(tr: Seq<(int, int, usize)>) -> int
    decreases tr.len(),
{
    if tr.len() == 0 {
        0
    } else {
        value_sum(tr.drop_last()) + tr.last().2
    }
}

/// The accumulated milliseconds in bucket `b` for author column `j`.
pub open spec fn sum_after(tr: Seq<(int, int, usize)>, b: int, j: int) -> int
    decreases tr.len(),
{
    if tr.len() == 0 {
        0
    } else {
        let prev = sum_after(tr.drop_last(), b, j);
        let t = tr.last();
        if t.0 == j && t.1 == b {
            prev + t.2
        } else {
            prev
        }
    }
}

/// No cell holds more than everything contributed.
pub proof fn lemma_sum_after_le(tr: Seq<(int, int, usize)>, b: int, j: int)
    requires
        forall|k: int| 0 <= k < tr.len() ==> (#[trigger] tr[k]).2 >= 0,
    ensures
        0 <= sum_after(tr, b, j),
        sum_after(tr, b, j) <= value_sum(tr),
        0 <= value_sum(tr),
    decreases tr.len(),
{
    if tr.len() > 0 {
        lemma_sum_after_le(tr.drop_last(), b, j);
    }
}

/// The accumulated milliseconds of bucket `b` over the first `j` author
/// columns.
pub open spec fn col_sum_to(tr: Seq<(int, int, usize)>, b: int, j: int) -> int
    decreases j,
{
    if j <= 0 {
        0
    } else {
        col_sum_to(tr, b, j - 1) + sum_after(tr, b, j - 1)
    }
}

proof fn lemma_col_sum_step(tr: Seq<(int, int, usize)>, t: (int, int, usize), b: int, j: int)
    requires
        j >= 0,
    ensures
        col_sum_to(tr.push(t), b, j) == col_sum_to(tr, b, j) + (
        if t.1 == b && 0 <= t.0 < j {
            t.2 as int
        } else {
            0
        }),
    decreases j,
{
    if j > 0 {
        lemma_col_sum_step(tr, t, b, j - 1);
        assert(tr.push(t).drop_last() =~= tr);
        assert(sum_after(tr.push(t), b, j - 1) == sum_after(tr, b, j - 1) + (
        if t.0 == j - 1 && t.1 == b {
            t.2 as int
        } else {
            0
        }));
    }
}

/// A bucket's total never exceeds everything contributed, as long as every
/// contribution's author column is inside the registry.
pub proof fn lemma_col_sum_le(tr: Seq<(int, int, usize)>, b: int, n: int)
    requires
        n >= 0,
        forall|k: int| 0 <= k < tr.len() ==> 0 <= (#[trigger] tr[k]).0 < n,
    ensures
        0 <= col_sum_to(tr, b, n) <= value_sum(tr),
    decreases tr.len(),
{
    if tr.len() == 0 {
        lemma_col_sum_zero(tr, b, n);
    } else {
        let prev = tr.drop_last();
        let t = tr.last();
        assert(forall|k: int| 0 <= k < prev.len() ==> prev[k] == #[trigger] tr[k]);
        lemma_col_sum_le(prev, b, n);
        assert(prev.push(t) =~= tr);
        lemma_col_sum_step(prev, t, b, n);
    }
}

proof fn lemma_col_sum_zero(tr: Seq<(int, int, usize)>, b: int, j: int)
    requires
        tr.len() == 0,
    ensures
        col_sum_to(tr, b, j) == 0,
    decreases j,
{
    if j > 0 {
        lemma_col_sum_zero(tr, b, j - 1);
    }
}

/// The per-author milliseconds of bucket `b`, as machine integers.
pub open spec fn sums_row(tr: Seq<(int, int, usize)>, b: int, n: int) -> Seq<u64> {
    Seq::new(n as nat, |j: int| sum_after(tr, b, j) as u64)
}

/// The largest bucket total over the first `m` buckets.
pub open spec fn max_col_to(tr: Seq<(int, int, usize)>, n: int, m: int) -> int
    decreases m,
{
    if m <= 0 {
        0
    } else {
        let prev = max_col_to(tr, n, m - 1);
        let c = col_sum_to(tr, m - 1, n);
        if c > prev {
            c
        } else {
            prev
        }
    }
}

/// The vertical scale: enough milliseconds per pixel row that the tallest
/// bucket (plus one) fits the canvas height.
pub open spec fn ms_per_px_spec(tr: Seq<(int, int, usize)>, n: int, height: int) -> int {
    let max_ms = max_col_to(tr, n, RASTER_BUCKETS as int) + 1;
    (max_ms + height - 1) / height
}

/// The rows one author's bar occupies below `j`: full pixel rows only.
pub open spec fn fill_rows_to(vals: Seq<u64>, mpp: int, j: int) -> int
    decreases j,
{
    if j <= 0 {
        0
    } else {
        fill_rows_to(vals, mpp, j - 1) + (vals[j - 1] as int) / mpp
    }
}

/// Draws one author's stack: starting at row `y` and moving up, each row is
/// blended with the author's colour at an alpha proportional to the
/// milliseconds covering that row, until the remainder `r` is spent.
pub open spec fn draw_author(px: Seq<Pixel>, color: Pixel, y: int, r: int, mpp: int) -> Seq<Pixel>
    decreases r,
{
    if r <= 0 || mpp <= 0 {
        px
    } else {
        let alpha = (if r < mpp {
            r
        } else {
            mpp
        }) * 255 / mpp;
        let p2 = px.update(y, blend_spec(px[y], color, alpha));
        let y2 = if y > 0 {
            y - 1
        } else {
            0
        };
        let r2 = if r > mpp {
            r - mpp
        } else {
            0
        };
        draw_author(p2, color, y2, r2, mpp)
    }
}

/// The pixels of one column after the authors from index `i` upward have
/// been drawn (the last author first, so earlier authors blend on top).
pub open spec fn column_from(vals: Seq<u64>, mpp: int, height: int, i: int) -> Seq<Pixel>
    decreases vals.len() - i,
{
    if i >= vals.len() || i < 0 {
        Seq::new(height as nat, |k: int| background_spec())
    } else {
        draw_author(
            column_from(vals, mpp, height, i + 1),
            palette_spec(i),
            height - 1 - fill_rows_to(vals, mpp, i),
            vals[i] as int,
            mpp,
        )
    }
}

/// The finished pixels of image column `x`: its bucket's row, fully drawn.
pub open spec fn column_pixels_spec(
    tr: Seq<(int, int, usize)>,
    n: int,
    height: int,
    x: int,
) -> Seq<Pixel> {
    column_from(
        sums_row(tr, (x + RASTER_ROTATION as int) % (RASTER_BUCKETS as int), n),
        ms_per_px_spec(tr, n, height),
        height,
        0,
    )
}

/// The canvas height derived from the aspect-ratio constants.
pub open spec fn raster_height_spec() -> int {
    ((RASTER_BUCKETS * ASPECT_DEN + ASPECT_NUM - 1) as int) / (ASPECT_NUM as int)
}

fn set_at(v: &mut Vec<Pixel>, i: usize, x: Pixel)
    requires
        i < old(v)@.len(),
    ensures
        final(v)@ == old(v)@.update(i as int, x),
{
    let r = &mut v[i];
    *r = x;
}

} // verus!

verus! {

proof fn lemma_parts_take_le(s: Seq<(usize, usize)>, p: int)
    requires
        0 <= p <= s.len(),
    ensures
        0 <= parts_sum_spec(s.take(p)) <= parts_sum_spec(s),
    decreases s.len() - p,
{
    if p == s.len() {
        assert(s.take(p) =~= s);
        lemma_parts_nonneg(s);
    } else {
        assert(s.take(p + 1).drop_last() =~= s.take(p));
        lemma_parts_take_le(s, p + 1);
        lemma_parts_nonneg(s.take(p));
    }
}

proof fn lemma_parts_nonneg(s: Seq<(usize, usize)>)
    ensures
        parts_sum_spec(s) >= 0,
    decreases s.len(),
{
    if s.len() > 0 {
        lemma_parts_nonneg(s.drop_last());
    }
}

proof fn lemma_piece_extend(base: Seq<(int, int, usize)>, a: int, parts: Seq<(usize, usize)>, p: int)
    requires
        0 <= p < parts.len(),
    ensures
        base + piece_triples(a, parts.take(p + 1)) =~= (base + piece_triples(
            a,
            parts.take(p),
        )).push((a, parts[p].0 as int, parts[p].1)),
{
    let t = (a, parts[p].0 as int, parts[p].1);
    let lhs = base + piece_triples(a, parts.take(p + 1));
    let rhs = (base + piece_triples(a, parts.take(p))).push(t);
    assert forall|m: int| 0 <= m < lhs.len() implies lhs[m] == rhs[m] by {
        if m >= base.len() {
            assert(lhs[m] == piece_triples(a, parts.take(p + 1))[m - base.len()]);
            assert(parts.take(p + 1)[m - base.len()] == parts[m - base.len()]);
            if m - base.len() < p {
                assert(parts.take(p)[m - base.len()] == parts[m - base.len()]);
                assert(rhs[m] == piece_triples(a, parts.take(p))[m - base.len()]);
            }
        }
    }
}

/// Every contribution of the raster pipeline names a registered author.
proof fn lemma_raster_range(authors: Seq<Seq<char>>, calls: Seq<CallRecord>)
    requires
        forall|k: int|
            0 <= k < calls.len() && (#[trigger] calls[k]).duration_ms >= 15000 ==> 0
                <= find_author(authors, calls[k].author@) < authors.len(),
    ensures
        forall|k: int|
            0 <= k < raster_triples(authors, calls).len() ==> 0 <= (#[trigger] raster_triples(
                authors,
                calls,
            )[k]).0 < authors.len(),
    decreases calls.len(),
{
    if calls.len() > 0 {
        let prev = raster_triples(authors, calls.drop_last());
        let c = calls.last();
        assert(forall|k: int| 0 <= k < calls.len() - 1 ==> #[trigger] calls.drop_last()[k] == calls[k]);
        lemma_raster_range(authors, calls.drop_last());
        if c.duration_ms >= 15000 {
            let piece = piece_triples(
                find_author(authors, c.author@),
                split_spec(
                    c.start_ms_of_day as int,
                    c.duration_ms as int,
                    RASTER_BUCKET_MS as int,
                    RASTER_BUCKETS as int,
                ),
            );
            assert(calls[calls.len() - 1] == c);
            assert forall|k: int|
                0 <= k < raster_triples(authors, calls).len() implies 0 <= (
            #[trigger] raster_triples(authors, calls)[k]).0 < authors.len() by {
                if k < prev.len() {
                    assert(raster_triples(authors, calls)[k] == prev[k]);
                } else {
                    assert(raster_triples(authors, calls)[k] == piece[k - prev.len()]);
                }
            }
        }
    }
}

fn bump(m: &mut Vec<Vec<u128>>, b: usize, j: usize, v: u128)
    requires
        b < old(m)@.len(),
        j < old(m)@[b as int]@.len(),
        old(m)@[b as int]@[j as int] + v <= u128::MAX,
    ensures
        final(m)@.len() == old(m)@.len(),
        forall|bb: int| 0 <= bb < old(m)@.len() && bb != b ==> final(m)@[bb] == old(m)@[bb],
        final(m)@[b as int]@.len() == old(m)@[b as int]@.len(),
        forall|jj: int|
            0 <= jj < old(m)@[b as int]@.len() && jj != j ==> final(m)@[b as int]@[jj] == old(
                m,
            )@[b as int]@[jj],
        final(m)@[b as int]@[j as int] == old(m)@[b as int]@[j as int] + v,
{
    let row = &mut m[b];
    let cell = &mut row[j];
    *cell = *cell + v;
}

/// Accumulates each qualifying call's split parts into a 5760-bucket,
/// per-author millisecond matrix. `None` reports data whose total exceeds
/// the engine's documented bound.
fn accumulate_raster(authors: &Vec<String>, calls: &Vec<CallRecord>) -> (r: Option<Vec<Vec<u64>>>)
    requires
        forall|k: int| 0 <= k < calls@.len() ==> call_record_ok(#[trigger] calls@[k]),
        forall|k: int|
            0 <= k < calls@.len() && (#[trigger] calls@[k]).duration_ms >= 15000 ==> 0
                <= find_author(names(authors@), calls@[k].author@) < authors@.len(),
    ensures
        ({
            let tr = raster_triples(names(authors@), calls@);
            match r {
                Some(m) => value_sum(tr) <= MAX_BUCKET_TOTAL && m@.len() == RASTER_BUCKETS && (
                forall|b: int| 0 <= b < RASTER_BUCKETS ==> (#[trigger] m@[b])@ == sums_row(
                    tr,
                    b,
                    authors@.len() as int,
                )),
                None => value_sum(tr) > MAX_BUCKET_TOTAL,
            }
        }),
{
    let ghost ns = names(authors@);
    let n = authors.len();
    let mut matrix: Vec<Vec<u128>> = Vec::new();
    while matrix.len() < RASTER_BUCKETS
        invariant
            matrix@.len() <= RASTER_BUCKETS,
            n == authors@.len(),
            forall|b: int| 0 <= b < matrix@.len() ==> (#[trigger] matrix@[b])@.len() == n,
            forall|b: int, j: int|
                0 <= b < matrix@.len() && 0 <= j < n ==> (#[trigger] matrix@[b]@[j]) == 0,
        decreases RASTER_BUCKETS - matrix@.len(),
    {
        let mut row: Vec<u128> = Vec::new();
        while row.len() < n
            invariant
                row@.len() <= n,
                forall|j: int| 0 <= j < row@.len() ==> (#[trigger] row@[j]) == 0,
            decreases n - row@.len(),
        {
            row.push(0);
        }
        matrix.push(row);
    }
    let mut grand: u128 = 0;
    let mut i: usize = 0;
    proof {
        assert(raster_triples(ns, calls@.take(0)) =~= Seq::<(int, int, usize)>::empty());
    }
    while i < calls.len()
        invariant
            0 <= i <= calls@.len(),
            n == authors@.len(),
            ns == names(authors@),
            forall|k: int| 0 <= k < calls@.len() ==> call_record_ok(#[trigger] calls@[k]),
            forall|k: int|
                0 <= k < calls@.len() && (#[trigger] calls@[k]).duration_ms >= 15000 ==> 0
                    <= find_author(ns, calls@[k].author@) < n,
            matrix@.len() == RASTER_BUCKETS,
            forall|b: int| 0 <= b < RASTER_BUCKETS ==> (#[trigger] matrix@[b])@.len() == n,
            forall|b: int, j: int|
                0 <= b < RASTER_BUCKETS && 0 <= j < n ==> (#[trigger] matrix@[b]@[j])
                    == sum_after(raster_triples(ns, calls@.take(i as int)), b, j),
            grand == value_sum(raster_triples(ns, calls@.take(i as int))),
            grand <= i * 0xFFFF_FFFF_FFFF_FFFF,
        decreases calls@.len() - i,
    {
        let c = &calls[i];
        proof {
            assert(calls@.take(i + 1).drop_last() =~= calls@.take(i as int));
            assert(calls@.take(i + 1).last() == calls@[i as int]);
        }
        if c.duration_ms >= 15000 {
            let parts = split_interval(c.start_ms_of_day, c.duration_ms, RASTER_BUCKET_MS, RASTER_BUCKETS);
            let mut ai: usize = 0;
            let mut found = false;
            loop
                invariant
                    0 <= ai <= authors@.len(),
                    ns == names(authors@),
                    0 <= i < calls@.len(),
                    c.author@ == calls@[i as int].author@,
                    !found ==> forall|k: int| 0 <= k < ai ==> ns[k] != c.author@,
                    found ==> ai < authors@.len() && ns[ai as int] == c.author@ && (forall|k: int|
                        0 <= k < ai ==> ns[k] != c.author@),
                ensures
                    found ==> ai < authors@.len() && find_author(ns, c.author@) == ai as int,
                    !found ==> find_author(ns, c.author@) == -1,
                decreases authors@.len() - ai + (if found {
                    0int
                } else {
                    1int
                }),
            {
                if found {
                    proof {
                        crate::graph::lemma_find_author_at(ns, c.author@, ai as int);
                    }
                    break ;
                }
                if ai >= authors.len() {
                    proof {
                        crate::graph::lemma_find_author_properties(ns, c.author@);
                    }
                    break ;
                }
                if crate::graph::str_eq(authors[ai].as_str(), c.author.as_str()) {
                    proof {
                        assert(ns[ai as int] == authors@[ai as int]@);
                    }
                    found = true;
                } else {
                    ai = ai + 1;
                }
            }
            proof {
                assert(found);
            }
            let ghost a = find_author(ns, c.author@);
            let ghost base = raster_triples(ns, calls@.take(i as int));
            let mut p: usize = 0;
            proof {
                assert(base + piece_triples(a, parts@.take(0)) =~= base);
            }
            while p < parts.len()
                invariant
                    0 <= p <= parts@.len(),
                    0 <= i < calls@.len(),
                    i + 1 <= 0xFFFF_FFFF_FFFF_FFFF,
                    n == authors@.len(),
                    ns == names(authors@),
                    ai < n,
                    a == ai as int,
                    a == find_author(ns, calls@[i as int].author@),
                    base == raster_triples(ns, calls@.take(i as int)),
                    parts@ == split_spec(
                        calls@[i as int].start_ms_of_day as int,
                        calls@[i as int].duration_ms as int,
                        RASTER_BUCKET_MS as int,
                        RASTER_BUCKETS as int,
                    ),
                    parts_sum_spec(parts@) == calls@[i as int].duration_ms,
                    forall|k: int| 0 <= k < parts@.len() ==> (#[trigger] parts@[k]).0 < RASTER_BUCKETS,
                    matrix@.len() == RASTER_BUCKETS,
                    forall|b: int| 0 <= b < RASTER_BUCKETS ==> (#[trigger] matrix@[b])@.len() == n,
                    forall|b: int, j: int|
                        0 <= b < RASTER_BUCKETS && 0 <= j < n ==> (#[trigger] matrix@[b]@[j])
                            == sum_after(base + piece_triples(a, parts@.take(p as int)), b, j),
                    grand == value_sum(base + piece_triples(a, parts@.take(p as int))),
                    value_sum(base) <= i * 0xFFFF_FFFF_FFFF_FFFF,
                    grand == value_sum(base) + parts_sum_spec(parts@.take(p as int)),
                decreases parts@.len() - p,
            {
                let part = parts[p];
                let ghost pre = base + piece_triples(a, parts@.take(p as int));
                let ghost t = (a, part.0 as int, part.1);
                proof {
                    lemma_piece_extend(base, a, parts@, p as int);
                    assert(parts@.take(p + 1).drop_last() =~= parts@.take(p as int));
                    assert(parts@.take(p + 1).last() == parts@[p as int]);
                    lemma_parts_take_le(parts@, p + 1);
                    assert(parts_sum_spec(parts@.take(p + 1)) == parts_sum_spec(
                        parts@.take(p as int),
                    ) + part.1);
                    assert(grand + part.1 <= i * 0xFFFF_FFFF_FFFF_FFFF
                        + 0xFFFF_FFFF_FFFF_FFFF);
                    assert(i * 0xFFFF_FFFF_FFFF_FFFF + 0xFFFF_FFFF_FFFF_FFFF == (i + 1)
                        * 0xFFFF_FFFF_FFFF_FFFF) by (nonlinear_arith);
                    assert((i + 1) * 0xFFFF_FFFF_FFFF_FFFF
                        <= 340282366920938463463374607431768211455) by (nonlinear_arith)
                        requires
                            0 <= i + 1 <= 18446744073709551615,
                    ;
                    lemma_sum_after_le(pre, part.0 as int, ai as int);
                    assert(matrix@[part.0 as int]@[ai as int] + part.1 <= u128::MAX);
                }
                bump(&mut matrix, part.0, ai, part.1 as u128);
                proof {
                    let post = base + piece_triples(a, parts@.take(p + 1));
                    assert(post =~= pre.push(t));
                    assert(post.drop_last() =~= pre);
                    assert forall|b: int, j: int|
                        0 <= b < RASTER_BUCKETS && 0 <= j < n implies (#[trigger] matrix@[b]@[j])
                        == sum_after(post, b, j) by {
                        assert(sum_after(post, b, j) == sum_after(pre, b, j) + (
                        if t.0 == j && t.1 == b {
                            t.2 as int
                        } else {
                            0
                        }));
                    }
                    assert(value_sum(post) == value_sum(pre) + part.1);
                }
                grand = grand + part.1 as u128;
                p = p + 1;
            }
            proof {
                assert(parts@.take(parts@.len() as int) =~= parts@);
                assert(raster_triples(ns, calls@.take(i + 1)) == base + piece_triples(a, parts@));
                assert(grand <= (i + 1) * 0xFFFF_FFFF_FFFF_FFFF) by (nonlinear_arith)
                    requires
                        grand <= i * 0xFFFF_FFFF_FFFF_FFFF + 0xFFFF_FFFF_FFFF_FFFF,
                ;
            }
        } else {
            proof {
                assert(raster_triples(ns, calls@.take(i + 1)) == raster_triples(
                    ns,
                    calls@.take(i as int),
                ));
                assert(grand <= (i + 1) * 0xFFFF_FFFF_FFFF_FFFF) by (nonlinear_arith)
                    requires
                        grand <= i * 0xFFFF_FFFF_FFFF_FFFF && 0 <= i,
                ;
            }
        }
        i = i + 1;
    }
    proof {
        assert(calls@.take(calls@.len() as int) =~= calls@);
    }
    let ghost tr = raster_triples(ns, calls@);
    if grand > MAX_BUCKET_TOTAL as u128 {
        return None;
    }
    let mut out: Vec<Vec<u64>> = Vec::new();
    let mut b: usize = 0;
    while b < RASTER_BUCKETS
        invariant
            0 <= b <= RASTER_BUCKETS,
            n == authors@.len(),
            tr == raster_triples(ns, calls@),
            matrix@.len() == RASTER_BUCKETS,
            forall|bb: int| 0 <= bb < RASTER_BUCKETS ==> (#[trigger] matrix@[bb])@.len() == n,
            forall|bb: int, j: int|
                0 <= bb < RASTER_BUCKETS && 0 <= j < n ==> (#[trigger] matrix@[bb]@[j])
                    == sum_after(tr, bb, j),
            0 <= value_sum(tr) <= MAX_BUCKET_TOTAL,
            out@.len() == b,
            forall|bb: int| 0 <= bb < b ==> (#[trigger] out@[bb])@ == sums_row(tr, bb, n as int),
        decreases RASTER_BUCKETS - b,
    {
        let mut row: Vec<u64> = Vec::new();
        let mut j: usize = 0;
        while j < n
            invariant
                0 <= j <= n,
                0 <= b < RASTER_BUCKETS,
                n == authors@.len(),
                tr == raster_triples(ns, calls@),
                matrix@.len() == RASTER_BUCKETS,
                forall|bb: int| 0 <= bb < RASTER_BUCKETS ==> (#[trigger] matrix@[bb])@.len() == n,
                forall|bb: int, jj: int|
                    0 <= bb < RASTER_BUCKETS && 0 <= jj < n ==> (#[trigger] matrix@[bb]@[jj])
                        == sum_after(tr, bb, jj),
                0 <= value_sum(tr) <= MAX_BUCKET_TOTAL,
                row@.len() == j,
                forall|jj: int|
                    0 <= jj < j ==> (#[trigger] row@[jj]) as int == sum_after(tr, b as int, jj),
            decreases n - j,
        {
            proof {
                lemma_sum_after_le(tr, b as int, j as int);
            }
            let v = matrix[b][j];
            row.push(v as u64);
            j = j + 1;
        }
        proof {
            assert(row@ =~= sums_row(tr, b as int, n as int));
        }
        out.push(row);
        b = b + 1;
    }
    Some(out)
}

} // verus!

verus! {

/// The total milliseconds of the first `j` entries of a bucket row.
pub open spec fn sum_vals_to(vals: Seq<u64>, j: int) -> int
    decreases j,
{
    if j <= 0 {
        0
    } else {
        sum_vals_to(vals, j - 1) + vals[j - 1]
    }
}

proof fn lemma_div_superadd(a: int, b: int, d: int)
    requires
        a >= 0,
        b >= 0,
        d >= 1,
    ensures
        a / d + b / d <= (a + b) / d,
{
    vstd::arithmetic::div_mod::lemma_fundamental_div_mod(a, d);
    let qa = a / d;
    let ra = a % d;
    vstd::arithmetic::div_mod::lemma_mod_bound(a, d);
    vstd::arithmetic::div_mod::lemma_hoist_over_denominator(ra + b, qa, d as nat);
    assert(qa * d == d * qa) by (nonlinear_arith);
    assert(ra + b + qa * d == a + b);
    vstd::arithmetic::div_mod::lemma_div_is_ordered(b, ra + b, d);
    vstd::arithmetic::div_mod::lemma_div_pos_is_pos(b, d);
}

proof fn lemma_fill_rows_bounds(vals: Seq<u64>, mpp: int, j: int)
    requires
        mpp >= 1,
        0 <= j <= vals.len(),
    ensures
        0 <= fill_rows_to(vals, mpp, j),
        fill_rows_to(vals, mpp, j) <= sum_vals_to(vals, j) / mpp,
        0 <= sum_vals_to(vals, j),
    decreases j,
{
    if j > 0 {
        lemma_fill_rows_bounds(vals, mpp, j - 1);
        vstd::arithmetic::div_mod::lemma_div_pos_is_pos(vals[j - 1] as int, mpp);
        lemma_div_superadd(sum_vals_to(vals, j - 1), vals[j - 1] as int, mpp);
        vstd::arithmetic::div_mod::lemma_div_is_ordered(
            sum_vals_to(vals, j - 1),
            sum_vals_to(vals, j),
            mpp,
        );
    }
}

proof fn lemma_sum_vals_eq(tr: Seq<(int, int, usize)>, vals: Seq<u64>, b: int, n: int, j: int)
    requires
        vals == sums_row(tr, b, n),
        0 <= j <= n,
        value_sum(tr) <= MAX_BUCKET_TOTAL,
    ensures
        sum_vals_to(vals, j) == col_sum_to(tr, b, j),
    decreases j,
{
    if j > 0 {
        lemma_sum_vals_eq(tr, vals, b, n, j - 1);
        lemma_sum_after_le(tr, b, j - 1);
    }
}

proof fn lemma_col_partial_mono(tr: Seq<(int, int, usize)>, b: int, j: int, n: int)
    requires
        0 <= j <= n,
    ensures
        col_sum_to(tr, b, j) <= col_sum_to(tr, b, n),
    decreases n - j,
{
    if j < n {
        lemma_col_partial_mono(tr, b, j + 1, n);
        lemma_sum_after_le(tr, b, j);
    }
}

proof fn lemma_max_col_ge(tr: Seq<(int, int, usize)>, n: int, m: int, b: int)
    requires
        0 <= b < m,
    ensures
        col_sum_to(tr, b, n) <= max_col_to(tr, n, m),
        0 <= max_col_to(tr, n, m),
    decreases m,
{
    if m > 0 {
        if b < m - 1 {
            lemma_max_col_ge(tr, n, m - 1, b);
        } else {
            lemma_max_col_nonneg(tr, n, m - 1);
        }
    }
}

proof fn lemma_max_col_nonneg(tr: Seq<(int, int, usize)>, n: int, m: int)
    ensures
        0 <= max_col_to(tr, n, m),
    decreases m,
{
    if m > 0 {
        lemma_max_col_nonneg(tr, n, m - 1);
    }
}

/// Renders the daily call image: one column per 15-second bucket of the
/// day (rotated so the visual day starts at the configured hour), each
/// column a bottom-up stack of per-author bars, blended semi-transparently
/// onto the background, one pixel row per `ms_per_px` milliseconds.
/// `None` reports data whose total exceeds the engine's documented bound.
#[verifier::rlimit(100)]
pub fn call_graph_raster(authors: &Vec<String>, calls: &Vec<CallRecord>) -> (r: Option<RasterImage>)
    requires
        forall|k: int| 0 <= k < calls@.len() ==> call_record_ok(#[trigger] calls@[k]),
        forall|k: int|
            0 <= k < calls@.len() && (#[trigger] calls@[k]).duration_ms >= 15000 ==> 0
                <= find_author(names(authors@), calls@[k].author@) < authors@.len(),
    ensures
        ({
            let tr = raster_triples(names(authors@), calls@);
            let n = authors@.len() as int;
            match r {
                Some(img) => value_sum(tr) <= MAX_BUCKET_TOTAL && img.width == RASTER_BUCKETS
                    && img.height == raster_height_spec() && img.columns@.len() == RASTER_BUCKETS
                    && (forall|x: int|
                    0 <= x < RASTER_BUCKETS ==> (#[trigger] img.columns@[x])@
                        == column_pixels_spec(tr, n, raster_height_spec(), x)),
                None => value_sum(tr) > MAX_BUCKET_TOTAL,
            }
        }),
{
    let ghost ns = names(authors@);
    let ghost tr = raster_triples(ns, calls@);
    let n = authors.len();
    let m64 = match accumulate_raster(authors, calls) {
        Some(m) => m,
        None => {
            return None;
        },
    };
    proof {
        lemma_raster_range(ns, calls@);
        lemma_sum_after_le(tr, 0, 0);
    }
    let height: usize = (RASTER_BUCKETS * ASPECT_DEN + ASPECT_NUM - 1) / ASPECT_NUM;
    proof {
        assert(height == raster_height_spec());
        assert(height == 917);
    }
    let mut mx: u64 = 0;
    let mut b: usize = 0;
    while b < RASTER_BUCKETS
        invariant
            0 <= b <= RASTER_BUCKETS,
            n == authors@.len(),
            tr == raster_triples(ns, calls@),
            0 <= value_sum(tr) <= MAX_BUCKET_TOTAL,
            forall|k: int| 0 <= k < tr.len() ==> 0 <= (#[trigger] tr[k]).0 < n,
            m64@.len() == RASTER_BUCKETS,
            forall|bb: int|
                0 <= bb < RASTER_BUCKETS ==> (#[trigger] m64@[bb])@ == sums_row(tr, bb, n as int),
            mx == max_col_to(tr, n as int, b as int),
            0 <= mx <= MAX_BUCKET_TOTAL,
        decreases RASTER_BUCKETS - b,
    {
        let mut t: u64 = 0;
        let mut j: usize = 0;
        proof {
            lemma_col_sum_le(tr, b as int, n as int);
        }
        while j < n
            invariant
                0 <= j <= n,
                0 <= b < RASTER_BUCKETS,
                n == authors@.len(),
                tr == raster_triples(ns, calls@),
                0 <= value_sum(tr) <= MAX_BUCKET_TOTAL,
                m64@.len() == RASTER_BUCKETS,
                forall|bb: int|
                    0 <= bb < RASTER_BUCKETS ==> (#[trigger] m64@[bb])@ == sums_row(
                        tr,
                        bb,
                        n as int,
                    ),
                t == col_sum_to(tr, b as int, j as int),
                0 <= col_sum_to(tr, b as int, n as int) <= MAX_BUCKET_TOTAL,
                col_sum_to(tr, b as int, j as int) <= col_sum_to(tr, b as int, n as int),
            decreases n - j,
        {
            proof {
                lemma_sum_after_le(tr, b as int, j as int);
                lemma_col_partial_mono(tr, b as int, j + 1, n as int);
            }
            let v = m64[b][j];
            t = t + v;
            j = j + 1;
        }
        if t > mx {
            mx = t;
        }
        proof {
            lemma_max_col_nonneg(tr, n as int, b as int);
        }
        b = b + 1;
    }
    let max_ms: u64 = mx + 1;
    let mpp: u64 = (max_ms + height as u64 - 1) / height as u64;
    proof {
        assert(mpp == ms_per_px_spec(tr, n as int, height as int));
        assert(mpp >= 1 && mpp as int * height as int >= max_ms) by {
            vstd::arithmetic::div_mod::lemma_fundamental_div_mod(
                max_ms as int + height as int - 1,
                height as int,
            );
            vstd::arithmetic::div_mod::lemma_mod_bound(
                max_ms as int + height as int - 1,
                height as int,
            );
            assert(mpp as int * height as int == height as int * (mpp as int)) by (nonlinear_arith);
            vstd::arithmetic::div_mod::lemma_div_pos_is_pos(
                max_ms as int + height as int - 1,
                height as int,
            );
            if mpp == 0 {
                assert(max_ms as int + height as int - 1 < height as int) by {
                    vstd::arithmetic::div_mod::lemma_small_div_converse(
                        max_ms as int + height as int - 1,
                        height as int,
                    );
                }
            }
        }
    }
    let mut columns: Vec<Vec<Pixel>> = Vec::new();
    let mut x: usize = 0;
    while x < RASTER_BUCKETS
        invariant
            0 <= x <= RASTER_BUCKETS,
            n == authors@.len(),
            tr == raster_triples(ns, calls@),
            0 <= value_sum(tr) <= MAX_BUCKET_TOTAL,
            forall|k: int| 0 <= k < tr.len() ==> 0 <= (#[trigger] tr[k]).0 < n,
            m64@.len() == RASTER_BUCKETS,
            forall|bb: int|
                0 <= bb < RASTER_BUCKETS ==> (#[trigger] m64@[bb])@ == sums_row(tr, bb, n as int),
            height == raster_height_spec(),
            height == 917,
            mx == max_col_to(tr, n as int, RASTER_BUCKETS as int),
            0 <= mx <= MAX_BUCKET_TOTAL,
            max_ms == mx + 1,
            mpp == ms_per_px_spec(tr, n as int, height as int),
            mpp >= 1,
            mpp as int * height as int >= max_ms,
            mpp <= max_ms,
            columns@.len() == x,
            forall|xx: int|
                0 <= xx < x ==> (#[trigger] columns@[xx])@ == column_pixels_spec(
                    tr,
                    n as int,
                    height as int,
                    xx,
                ),
        decreases RASTER_BUCKETS - x,
    {
        let bucket = (x + RASTER_ROTATION) % RASTER_BUCKETS;
        let ghost vals = m64@[bucket as int]@;
        proof {
            assert(bucket as int == (x as int + RASTER_ROTATION as int) % (RASTER_BUCKETS as int));
            assert(vals == sums_row(tr, bucket as int, n as int));
            assert(vals.len() == n);
        }
        let mut col: Vec<Pixel> = Vec::new();
        while col.len() < height
            invariant
                col@.len() <= height,
                forall|k: int| 0 <= k < col@.len() ==> (#[trigger] col@[k]) == background_spec(),
            decreases height - col@.len(),
        {
            col.push(background());
        }
        proof {
            assert(col@ =~= Seq::new(height as nat, |k: int| background_spec()));
            assert(col@ == column_from(vals, mpp as int, height as int, n as int));
        }
        let mut srows: u64 = 0;
        let mut j: usize = 0;
        proof {
            lemma_col_sum_le(tr, bucket as int, n as int);
            lemma_sum_vals_eq(tr, vals, bucket as int, n as int, n as int);
        }
        while j < n
            invariant
                0 <= j <= n,
                mpp >= 1,
                vals.len() == n,
                0 <= bucket < RASTER_BUCKETS,
                m64@.len() == RASTER_BUCKETS,
                vals == m64@[bucket as int]@,
                tr == raster_triples(ns, calls@),
                0 <= value_sum(tr) <= MAX_BUCKET_TOTAL,
                vals == sums_row(tr, bucket as int, n as int),
                srows == fill_rows_to(vals, mpp as int, j as int),
                0 <= srows <= sum_vals_to(vals, j as int),
                sum_vals_to(vals, j as int) <= col_sum_to(tr, bucket as int, n as int),
                col_sum_to(tr, bucket as int, n as int) <= MAX_BUCKET_TOTAL,
            decreases n - j,
        {
            proof {
                lemma_fill_rows_bounds(vals, mpp as int, j + 1);
                lemma_fill_rows_bounds(vals, mpp as int, j as int);
                lemma_sum_vals_eq(tr, vals, bucket as int, n as int, j + 1);
                lemma_col_partial_mono(tr, bucket as int, j + 1, n as int);
                vstd::arithmetic::div_mod::lemma_div_nonincreasing(vals[j as int] as int, mpp as int);
                vstd::arithmetic::div_mod::lemma_div_pos_is_pos(vals[j as int] as int, mpp as int);
            }
            let v = m64[bucket][j];
            srows = srows + v / mpp;
            j = j + 1;
        }
        proof {
            lemma_fill_rows_bounds(vals, mpp as int, n as int);
            lemma_max_col_ge(tr, n as int, RASTER_BUCKETS as int, bucket as int);
            assert(sum_vals_to(vals, n as int) <= mx);
            vstd::arithmetic::div_mod::lemma_div_is_ordered(
                sum_vals_to(vals, n as int),
                mx as int,
                mpp as int,
            );
            assert((mx as int) < (mpp as int) * (height as int));
            assert((mx as int) / (mpp as int) < height as int) by (nonlinear_arith)
                requires
                    (mx as int) < (mpp as int) * (height as int) && mpp >= 1 && mx >= 0,
            ;
            assert(srows <= height - 1);
        }
        let mut idx: usize = n;
        while idx > 0
            invariant
                0 <= idx <= n,
                mpp >= 1,
                mpp <= MAX_BUCKET_TOTAL + 1,
                vals.len() == n,
                0 <= bucket < RASTER_BUCKETS,
                m64@.len() == RASTER_BUCKETS,
                vals == m64@[bucket as int]@,
                height == 917,
                col@.len() == height,
                col@ == column_from(vals, mpp as int, height as int, idx as int),
                srows == fill_rows_to(vals, mpp as int, idx as int),
                0 <= srows <= height - 1,
            decreases idx,
        {
            idx = idx - 1;
            proof {
                lemma_fill_rows_bounds(vals, mpp as int, idx as int);
                vstd::arithmetic::div_mod::lemma_div_pos_is_pos(vals[idx as int] as int, mpp as int);
            }
            let fr = m64[bucket][idx] / mpp;
            srows = srows - fr;
            let h: usize = height - 1 - srows as usize;
            let color = palette(idx);
            let ghost entry = col@;
            let mut y: usize = h;
            let mut rr: u64 = m64[bucket][idx];
            proof {
                assert(h as int == height - 1 - fill_rows_to(vals, mpp as int, idx as int));
                assert(rr == vals[idx as int]);
            }
            while rr > 0
                invariant
                    mpp >= 1,
                    mpp <= MAX_BUCKET_TOTAL + 1,
                    col@.len() == height,
                    height == 917,
                    y < height,
                    h < height,
                    0 <= idx < n,
                    color == palette_spec(idx as int),
                    draw_author(col@, palette_spec(idx as int), y as int, rr as int, mpp as int)
                        == draw_author(
                        entry,
                        palette_spec(idx as int),
                        h as int,
                        vals[idx as int] as int,
                        mpp as int,
                    ),
                decreases rr,
            {
                let step = if rr < mpp {
                    rr
                } else {
                    mpp
                };
                proof {
                    assert(step as int * 255 <= (MAX_BUCKET_TOTAL + 1) * 255) by (nonlinear_arith)
                        requires
                            0 <= step as int <= MAX_BUCKET_TOTAL + 1,
                    ;
                    assert(step as int * 255 / mpp as int <= 255) by (nonlinear_arith)
                        requires
                            0 <= step as int <= mpp as int && mpp >= 1,
                    ;
                    assert(step as int * 255 / mpp as int >= 0) by (nonlinear_arith)
                        requires
                            step as int >= 0 && mpp >= 1,
                    ;
                }
                let alpha = step * 255 / mpp;
                let px = col[y];
                let nb = blend(px, color, alpha);
                let ghost colpre = col@;
                set_at(&mut col, y, nb);
                let ghost y2: int = if y > 0 {
                    y as int - 1
                } else {
                    0
                };
                let ghost r2: int = if rr > mpp {
                    rr as int - mpp as int
                } else {
                    0
                };
                proof {
                    assert(col@ == colpre.update(
                        y as int,
                        blend_spec(colpre[y as int], palette_spec(idx as int), alpha as int),
                    ));
                    assert(draw_author(
                        colpre,
                        palette_spec(idx as int),
                        y as int,
                        rr as int,
                        mpp as int,
                    ) == draw_author(col@, palette_spec(idx as int), y2, r2, mpp as int));
                }
                rr = if rr > mpp {
                    rr - mpp
                } else {
                    0
                };
                y = if y > 0 {
                    y - 1
                } else {
                    0
                };
            }
            proof {
                assert(draw_author(col@, palette_spec(idx as int), y as int, 0int, mpp as int)
                    == col@);
                assert(col@ == draw_author(
                    entry,
                    palette_spec(idx as int),
                    h as int,
                    vals[idx as int] as int,
                    mpp as int,
                ));
                assert(col@ == column_from(vals, mpp as int, height as int, idx as int));
            }
        }
        proof {
            assert(col@ == column_pixels_spec(tr, n as int, height as int, x as int));
        }
        columns.push(col);
        x = x + 1;
    }
    Some(RasterImage { width: RASTER_BUCKETS, height, columns })
}

} // verus!
