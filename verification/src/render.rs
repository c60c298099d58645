//! The text renderer: a statistics header, a colour legend, and one
//! proportional ANSI bar per bucket, rotated to the graph's start index.

use vstd::prelude::*;
use crate::graph::{cell, names, Graph};
use crate::labels::{label_spec, LabelStyle};
use crate::num_fmt::{
    dec_spec, fixed4_spec, push_char, push_dec, push_fixed4, usize_to_string,
};
use crate::reducer::{dataset_sum, lemma_sum_nonneg, reduce_spec, sum_spec, Reducer};
use crate::stats::{sd_e4_spec, standard_deviation, MAX_BUCKETS, MAX_BUCKET_TOTAL};

verus! {

/// The raw cell matrix of a graph: bucket, then author column.
pub open spec fn cells_of(g: Graph) -> Seq<Seq<Seq<usize>>> {
    Seq::new(
        g.data@.len(),
        |b: int| Seq::new(g.authors@.len(), |j: int| cell(g, b, j)),
    )
}

/// The reduced total of bucket `b` over its first `j` author columns.
pub open spec fn bucket_total_to(red: Reducer, cells: Seq<Seq<Seq<usize>>>, b: int, j: int) -> int
    decreases j,
{
    if j <= 0 {
        0
    } else {
        bucket_total_to(red, cells, b, j - 1) + reduce_spec(red, cells[b][j - 1])
    }
}

/// The per-bucket reduced totals, as machine integers.
pub open spec fn totals_of(red: Reducer, cells: Seq<Seq<Seq<usize>>>, nauthors: int) -> Seq<usize> {
    Seq::new(cells.len(), |b: int| bucket_total_to(red, cells, b, nauthors) as usize)
}

/// The largest of the values, zero for an empty sequence.
pub open spec fn max_of(s: Seq<usize>) -> int
    decreases s.len(),
{
    if s.len() == 0 {
        0
    } else {
        let m = max_of(s.drop_last());
        if s.last() > m {
            s.last() as int
        } else {
            m
        }
    }
}

/// The smallest of the values, zero for an empty sequence.
pub open spec fn min_of(s: Seq<usize>) -> int
    decreases s.len(),
{
    if s.len() == 0 {
        0
    } else if s.len() == 1 {
        s[0] as int
    } else {
        let m = min_of(s.drop_last());
        if s.last() < m {
            s.last() as int
        } else {
            m
        }
    }
}

/// The bounds under which rendering is free of overflow: a bounded bucket
/// count and bounded bucket totals (the documented limits of the engine),
/// with every cell's raw sum inside the machine's integer range.
pub open spec fn render_ok(red: Reducer, cells: Seq<Seq<Seq<usize>>>, nauthors: int) -> bool {
    &&& cells.len() <= MAX_BUCKETS
    &&& forall|b: int| 0 <= b < cells.len() ==> (#[trigger] cells[b]).len() == nauthors
    &&& forall|b: int, j: int|
        0 <= b < cells.len() && 0 <= j < nauthors ==> sum_spec(#[trigger] cells[b][j])
            <= usize::MAX
    &&& forall|b: int|
        0 <= b < cells.len() ==> 0 <= #[trigger] bucket_total_to(red, cells, b, nauthors)
            <= MAX_BUCKET_TOTAL && bucket_total_to(red, cells, b, nauthors) <= usize::MAX
    &&& sum_spec(totals_of(red, cells, nauthors)) <= usize::MAX
}

/// The ANSI escape that selects colour `c`.
pub open spec fn ansi_color_spec(c: int) -> Seq<char> {
    "\u{1B}["@ + dec_spec(c) + "m"@
}

/// The ANSI escape that resets the colour.
pub open spec fn ansi_reset_spec() -> Seq<char> {
    "\u{1B}[0m"@
}

/// The colour assigned to author column `j`.
pub open spec fn color_of(j: int) -> int {
    92 + j % 5
}

/// `n` copies of one character.
pub open spec fn repeat_spec(c: char, n: int) -> Seq<char> {
    if n <= 0 {
        Seq::empty()
    } else {
        Seq::new(n as nat, |i: int| c)
    }
}

/// The proportional fill for a value `q` against the observed maximum:
/// `width * q / max` cells, and none at all when the maximum is zero.
pub open spec fn fill_spec(width: int, q: int, max: int) -> int {
    if max <= 0 {
        0
    } else {
        width * q / max
    }
}

/// The total fill the first `j` author segments take.
pub open spec fn fills_to(width: int, max: int, qs: Seq<usize>, j: int) -> int
    decreases j,
{
    if j <= 0 {
        0
    } else {
        fills_to(width, max, qs, j - 1) + fill_spec(width, qs[j - 1] as int, max)
    }
}

/// The first `j` coloured author segments of a bar.
pub open spec fn segments_to(
    width: int,
    full: char,
    max: int,
    qs: Seq<usize>,
    j: int,
) -> Seq<char>
    decreases j,
{
    if j <= 0 {
        Seq::empty()
    } else {
        segments_to(width, full, max, qs, j - 1) + ansi_color_spec(color_of(j - 1)) + repeat_spec(
            full,
            fill_spec(width, qs[j - 1] as int, max),
        ) + ansi_reset_spec()
    }
}

/// A whole bar: bracketed, the coloured fills in author order, then empty
/// glyphs padding to the render width.
pub open spec fn bar_spec(width: int, full: char, empty: char, max: int, qs: Seq<usize>) -> Seq<
    char,
> {
    let used = fills_to(width, max, qs, qs.len() as int);
    "["@ + segments_to(width, full, max, qs, qs.len() as int) + repeat_spec(
        empty,
        if used >= width {
            0
        } else {
            width - used
        },
    ) + "]"@
}

/// Appends `n` copies of `c`.
fn push_repeat(s: &mut String, c: char, n: usize)
    ensures
        final(s)@ == old(s)@ + repeat_spec(c, n as int),
{
    let mut i: usize = 0;
    while i < n
        invariant
            0 <= i <= n,
            s@ == old(s)@ + repeat_spec(c, i as int),
        decreases n - i,
    {
        push_char(s, c);
        proof {
            assert(old(s)@ + repeat_spec(c, i as int) + seq![c] =~= old(s)@ + repeat_spec(
                c,
                i + 1,
            ));
        }
        i = i + 1;
    }
    proof {
        assert(old(s)@ + repeat_spec(c, 0int) =~= old(s)@);
    }
}

/// Appends the ANSI escape selecting colour `c`.
fn push_ansi_color(s: &mut String, c: usize)
    ensures
        final(s)@ == old(s)@ + ansi_color_spec(c as int),
{
    s.append("\u{1B}[");
    push_dec(s, c as u128);
    s.append("m");
    assert(s@ =~= old(s)@ + ansi_color_spec(c as int));
}

/// Renders one proportional bar: for each value, `width * value / max`
/// full glyphs in that value's colour, concatenated in order, padded with
/// empty glyphs to the width, inside brackets. A zero maximum (no data)
/// yields an all-empty bar instead of a division fault.
pub fn generate_progress_bar(
    width: usize,
    full_char: char,
    empty_char: char,
    max: usize,
    quantities: &[usize],
) -> (r: String)
    requires
        forall|i: int| 0 <= i < quantities@.len() ==> quantities@[i] <= max,
    ensures
        r@ == bar_spec(width as int, full_char, empty_char, max as int, quantities@),
{
    let mut buf = String::from_str("[");
    let mut used: u128 = 0;
    let mut i: usize = 0;
    while i < quantities.len()
        invariant
            0 <= i <= quantities@.len(),
            forall|k: int| 0 <= k < quantities@.len() ==> quantities@[k] <= max,
            used == fills_to(width as int, max as int, quantities@, i as int),
            0 <= used <= i * (width as int),
            buf@ == "["@ + segments_to(width as int, full_char, max as int, quantities@, i as int),
        decreases quantities@.len() - i,
    {
        let q = quantities[i];
        let fill: usize = if max == 0 {
            0
        } else {
            proof {
                assert((width as int) * (q as int) <= 340282366920938463463374607431768211455)
                    by (nonlinear_arith)
                    requires
                        0 <= width as int <= 18446744073709551615 && 0 <= q as int
                            <= 18446744073709551615,
                ;
                assert((width as int) * (q as int) / (max as int) <= width) by (nonlinear_arith)
                    requires
                        0 <= q <= max && 1 <= max as int && width >= 0,
                ;
                assert((width as int) * (q as int) / (max as int) >= 0) by (nonlinear_arith)
                    requires
                        q >= 0 && max as int >= 1 && width >= 0,
                ;
            }
            (((width as u128) * (q as u128)) / (max as u128)) as usize
        };
        assert(fill == fill_spec(width as int, q as int, max as int));
        push_ansi_color(&mut buf, 92 + i % 5);
        push_repeat(&mut buf, full_char, fill);
        buf.append("\u{1B}[0m");
        proof {
            assert(buf@ =~= "["@ + segments_to(
                width as int,
                full_char,
                max as int,
                quantities@,
                i + 1,
            ));
            assert((i + 1) * (width as int) == i * (width as int) + width as int)
                by (nonlinear_arith);
            assert((i + 1) * (width as int) <= 340282366920938463463374607431768211455)
                by (nonlinear_arith)
                requires
                    0 <= i + 1 <= 18446744073709551615 && 0 <= width as int
                        <= 18446744073709551615,
            ;
        }
        used = used + fill as u128;
        i = i + 1;
    }
    let pad: usize = if used >= width as u128 {
        0
    } else {
        width - used as usize
    };
    push_repeat(&mut buf, empty_char, pad);
    buf.append("]");
    assert(buf@ =~= bar_spec(width as int, full_char, empty_char, max as int, quantities@));
    buf
}

/// The coloured legend: one line per author, in registry order.
pub open spec fn legend_spec(authors: Seq<Seq<char>>, j: int) -> Seq<char>
    decreases j,
{
    if j <= 0 {
        Seq::empty()
    } else {
        legend_spec(authors, j - 1) + ansi_color_spec(color_of(j - 1)) + authors[j - 1]
            + ansi_reset_spec() + "\n"@
    }
}

/// The statistics header line: sum, mean and standard deviation (both with
/// four decimal places), render width, and the smallest and largest bucket
/// totals.
pub open spec fn header_spec(width: int, totals: Seq<usize>) -> Seq<char> {
    let sum = sum_spec(totals);
    let n = totals.len() as int;
    let mean_e4 = if n == 0 {
        0
    } else {
        sum * 10000 / n
    };
    "Graph Data: sum = "@ + dec_spec(sum) + ", mean = "@ + fixed4_spec(mean_e4) + ", sd = "@
        + fixed4_spec(sd_e4_spec(totals)) + ", width = "@ + dec_spec(width) + ", min = "@
        + dec_spec(min_of(totals)) + ", max = "@ + dec_spec(max_of(totals)) + "\n"@
}

/// The reduced per-author values of bucket `b`.
pub open spec fn reduced_row(red: Reducer, cells: Seq<Seq<Seq<usize>>>, b: int, nauthors: int) -> Seq<
    usize,
> {
    Seq::new(nauthors as nat, |j: int| reduce_spec(red, cells[b][j]) as usize)
}

/// One rendered bucket line: the label, a separator, and the bar.
pub open spec fn line_at(
    style: LabelStyle,
    red: Reducer,
    cells: Seq<Seq<Seq<usize>>>,
    nauthors: int,
    width: int,
    max: int,
    b: int,
) -> Seq<char> {
    label_spec(style, b) + " | "@ + bar_spec(
        width,
        '#',
        '-',
        max,
        reduced_row(red, cells, b, nauthors),
    ) + "\n"@
}

/// The first `k` bucket lines, starting at the rotation index and wrapping
/// modulo the bucket count.
pub open spec fn lines_to(
    style: LabelStyle,
    red: Reducer,
    cells: Seq<Seq<Seq<usize>>>,
    nauthors: int,
    start: int,
    width: int,
    max: int,
    k: int,
) -> Seq<char>
    decreases k,
{
    if k <= 0 || cells.len() == 0 {
        Seq::empty()
    } else {
        lines_to(style, red, cells, nauthors, start, width, max, k - 1) + line_at(
            style,
            red,
            cells,
            nauthors,
            width,
            max,
            (start + (k - 1)) % (cells.len() as int),
        )
    }
}

/// The whole rendering of a graph: header, legend, then every bucket line
/// in rotated order.
pub open spec fn render_spec(
    authors: Seq<Seq<char>>,
    style: LabelStyle,
    red: Reducer,
    cells: Seq<Seq<Seq<usize>>>,
    start: int,
    width: int,
) -> Seq<char> {
    let totals = totals_of(red, cells, authors.len() as int);
    header_spec(width, totals) + "Legend:\n"@ + legend_spec(authors, authors.len() as int)
        + lines_to(
        style,
        red,
        cells,
        authors.len() as int,
        start,
        width,
        max_of(totals),
        cells.len() as int,
    )
}

pub proof fn lemma_reduce_nonneg(red: Reducer, s: Seq<usize>)
    ensures
        0 <= reduce_spec(red, s),
        reduce_spec(red, s) <= sum_spec(s),
{
    lemma_sum_nonneg(s);
    match red {
        Reducer::Sum => {},
        Reducer::Average => {
            if s.len() > 0 {
                assert(0 <= sum_spec(s) / s.len() as int <= sum_spec(s)) by (nonlinear_arith)
                    requires
                        sum_spec(s) >= 0 && s.len() >= 1,
                ;
            }
        },
    }
}

/// Each author's reduced value sits inside its bucket's total.
pub proof fn lemma_component_le_total(
    red: Reducer,
    cells: Seq<Seq<Seq<usize>>>,
    b: int,
    j: int,
    n: int,
)
    requires
        0 <= j < n,
    ensures
        reduce_spec(red, cells[b][j]) <= bucket_total_to(red, cells, b, n),
        0 <= bucket_total_to(red, cells, b, n),
    decreases n,
{
    lemma_total_nonneg(red, cells, b, n);
    if j == n - 1 {
        lemma_total_nonneg(red, cells, b, n - 1);
    } else {
        lemma_component_le_total(red, cells, b, j, n - 1);
        lemma_reduce_nonneg(red, cells[b][n - 1]);
    }
}

pub proof fn lemma_total_nonneg(red: Reducer, cells: Seq<Seq<Seq<usize>>>, b: int, n: int)
    ensures
        0 <= bucket_total_to(red, cells, b, n),
    decreases n,
{
    if n > 0 {
        lemma_total_nonneg(red, cells, b, n - 1);
        lemma_reduce_nonneg(red, cells[b][n - 1]);
    }
}

/// Every value is at most the maximum, and at least the minimum.
pub proof fn lemma_minmax_bounds(s: Seq<usize>, i: int)
    requires
        0 <= i < s.len(),
    ensures
        s[i] <= max_of(s),
        min_of(s) <= s[i],
        0 <= max_of(s),
    decreases s.len(),
{
    if i < s.len() - 1 {
        lemma_minmax_bounds(s.drop_last(), i);
        assert(s.drop_last()[i] == s[i]);
    }
}

impl Graph {
    /// Renders the graph: a statistics header, the author legend, and one
    /// labelled proportional bar per bucket, starting at the rotation
    /// index and wrapping. Zero observed data renders all-empty bars and
    /// zero statistics rather than faulting.
    #[verifier::rlimit(100)]
    pub fn render(&self) -> (r: String)
        requires
            self.wf(),
            render_ok(self.reducer, cells_of(*self), self.authors@.len() as int),
        ensures
            r@ == render_spec(
                names(self.authors@),
                self.label_style,
                self.reducer,
                cells_of(*self),
                self.start_idx as int,
                self.width as int,
            ),
    {
        let ghost cells = cells_of(*self);
        let ghost nauthors = self.authors@.len() as int;
        let nbuckets = self.data.len();
        let mut totals: Vec<usize> = Vec::new();
        let mut b: usize = 0;
        while b < nbuckets
            invariant
                0 <= b <= nbuckets,
                nbuckets == self.data@.len(),
                self.wf(),
                render_ok(self.reducer, cells, nauthors),
                cells == cells_of(*self),
                nauthors == self.authors@.len() as int,
                totals@.len() == b,
                forall|i: int|
                    0 <= i < b ==> totals@[i] == bucket_total_to(
                        self.reducer,
                        cells,
                        i,
                        nauthors,
                    ) as usize,
            decreases nbuckets - b,
        {
            let mut t: usize = 0;
            let mut j: usize = 0;
            while j < self.authors.len()
                invariant
                    0 <= j <= nauthors,
                    0 <= b < self.data@.len(),
                    nauthors == self.authors@.len() as int,
                    self.wf(),
                    render_ok(self.reducer, cells, nauthors),
                    cells == cells_of(*self),
                    t == bucket_total_to(self.reducer, cells, b as int, j as int),
                decreases nauthors - j,
            {
                proof {
                    assert(cells[b as int][j as int] == cell(*self, b as int, j as int));
                    lemma_reduce_nonneg(self.reducer, cells[b as int][j as int]);
                    lemma_component_le_total(self.reducer, cells, b as int, j as int, nauthors);
                    lemma_partial_le_total(self.reducer, cells, b as int, j + 1, nauthors);
                }
                let red = self.reducer.apply(self.data[b][j].as_slice());
                t = t + red;
                j = j + 1;
            }
            totals.push(t);
            b = b + 1;
        }
        proof {
            assert(totals@ =~= totals_of(self.reducer, cells, nauthors));
        }
        let ghost tseq = totals_of(self.reducer, cells, nauthors);
        let mut mx: usize = 0;
        let mut mn: usize = 0;
        if nbuckets > 0 {
            mx = totals[0];
            mn = mx;
            proof {
                reveal_with_fuel(max_of, 2);
                reveal_with_fuel(min_of, 2);
                assert(totals@.take(1int).len() == 1);
                assert(totals@.take(1int)[0] == totals@[0]);
                assert(totals@.take(1int).drop_last() =~= Seq::<usize>::empty());
                assert(totals@.take(1int).last() == totals@[0]);
                assert(mx == max_of(totals@.take(1int)));
                assert(mn == min_of(totals@.take(1int)));
            }
            let mut i: usize = 1;
            while i < nbuckets
                invariant
                    1 <= i <= nbuckets,
                    nbuckets == totals@.len(),
                    tseq == totals@,
                    mx == max_of(totals@.take(i as int)),
                    mn == min_of(totals@.take(i as int)),
                decreases nbuckets - i,
            {
                proof {
                    assert(totals@.take(i + 1).drop_last() =~= totals@.take(i as int));
                    assert(totals@.take(i + 1).last() == totals@[i as int]);
                    assert(totals@.take(i + 1).len() > 1);
                }
                let v = totals[i];
                if v > mx {
                    mx = v;
                }
                if v < mn {
                    mn = v;
                }
                i = i + 1;
            }
            proof {
                assert(totals@.take(nbuckets as int) =~= totals@);
            }
        }
        proof {
            if nbuckets > 0 {
                assert(totals@.take(1int).len() == 1);
                assert(totals@.take(1int)[0] == totals@[0]);
            }
        }
        let sum = dataset_sum(totals.as_slice());
        let sd = standard_deviation(sum, totals.as_slice(), nbuckets);
        let mean_e4: u128 = if nbuckets == 0 {
            0
        } else {
            proof {
                lemma_sum_nonneg(totals@);
                vstd::arithmetic::div_mod::lemma_div_nonincreasing(
                    sum as int * 10000,
                    nbuckets as int,
                );
                assert(sum as int * 10000 >= 0) by (nonlinear_arith)
                    requires
                        sum >= 0,
                ;
                assert(sum as int * 10000 <= u128::MAX) by (nonlinear_arith)
                    requires
                        0 <= sum as int <= usize::MAX,
                ;
            }
            (sum as u128) * 10000 / (nbuckets as u128)
        };
        let mut s = String::from_str("Graph Data: sum = ");
        s.append(usize_to_string(sum).as_str());
        s.append(", mean = ");
        push_fixed4(&mut s, mean_e4);
        s.append(", sd = ");
        push_fixed4(&mut s, sd as u128);
        s.append(", width = ");
        s.append(usize_to_string(self.width).as_str());
        s.append(", min = ");
        s.append(usize_to_string(mn).as_str());
        s.append(", max = ");
        s.append(usize_to_string(mx).as_str());
        s.append("\n");
        proof {
            assert(s@ =~= header_spec(self.width as int, tseq));
        }
        s.append("Legend:\n");
        let ghost head = s@;
        proof {
            assert(s@ =~= head + legend_spec(names(self.authors@), 0int));
        }
        let mut j: usize = 0;
        while j < self.authors.len()
            invariant
                0 <= j <= self.authors@.len(),
                s@ == head + legend_spec(names(self.authors@), j as int),
                head == header_spec(self.width as int, tseq) + "Legend:\n"@,
            decreases self.authors@.len() - j,
        {
            push_ansi_color(&mut s, 92 + j % 5);
            s.append(self.authors[j].as_str());
            s.append("\u{1B}[0m");
            s.append("\n");
            proof {
                assert(names(self.authors@)[j as int] == self.authors@[j as int]@);
                assert(s@ =~= head + legend_spec(names(self.authors@), j + 1));
            }
            j = j + 1;
        }
        let ghost legend_done = s@;
        let mut k: usize = 0;
        if nbuckets > 0 {
            let s0 = self.start_idx % nbuckets;
            while k < nbuckets
                invariant
                    0 <= k <= nbuckets,
                    0 < nbuckets == self.data@.len(),
                    s0 == self.start_idx as int % nbuckets as int,
                    0 <= s0 < nbuckets,
                    self.wf(),
                    render_ok(self.reducer, cells, nauthors),
                    cells == cells_of(*self),
                    nauthors == self.authors@.len() as int,
                    tseq == totals_of(self.reducer, cells, nauthors),
                    mx == max_of(tseq),
                    s@ == legend_done + lines_to(
                        self.label_style,
                        self.reducer,
                        cells,
                        nauthors,
                        self.start_idx as int,
                        self.width as int,
                        max_of(tseq),
                        k as int,
                    ),
                decreases nbuckets - k,
            {
                let idx = (s0 + k) % nbuckets;
                proof {
                    vstd::arithmetic::div_mod::lemma_add_mod_noop(
                        self.start_idx as int,
                        k as int,
                        nbuckets as int,
                    );
                    vstd::arithmetic::div_mod::lemma_mod_twice(
                        self.start_idx as int,
                        nbuckets as int,
                    );
                    assert((self.start_idx as int % nbuckets as int + k as int % nbuckets as int)
                        % nbuckets as int == (self.start_idx as int + k as int)
                        % nbuckets as int);
                    vstd::arithmetic::div_mod::lemma_small_mod(k as nat, nbuckets as nat);
                    assert(idx as int == (self.start_idx as int + k as int) % nbuckets as int);
                    vstd::arithmetic::div_mod::lemma_mod_bound(
                        self.start_idx as int + k as int,
                        nbuckets as int,
                    );
                }
                let mut qs: Vec<usize> = Vec::new();
                let mut j2: usize = 0;
                while j2 < self.authors.len()
                    invariant
                        0 <= j2 <= nauthors,
                        0 <= idx < self.data@.len(),
                        nauthors == self.authors@.len() as int,
                        self.wf(),
                        render_ok(self.reducer, cells, nauthors),
                        cells == cells_of(*self),
                        qs@.len() == j2,
                        forall|m: int|
                            0 <= m < j2 ==> qs@[m] == reduce_spec(
                                self.reducer,
                                cells[idx as int][m],
                            ) as usize,
                    decreases nauthors - j2,
                {
                    proof {
                        assert(cells[idx as int][j2 as int] == cell(*self, idx as int, j2 as int));
                        lemma_reduce_nonneg(self.reducer, cells[idx as int][j2 as int]);
                        lemma_component_le_total(
                            self.reducer,
                            cells,
                            idx as int,
                            j2 as int,
                            nauthors,
                        );
                    }
                    let red = self.reducer.apply(self.data[idx][j2].as_slice());
                    qs.push(red);
                    j2 = j2 + 1;
                }
                proof {
                    assert(qs@ =~= reduced_row(self.reducer, cells, idx as int, nauthors));
                    assert forall|m: int| 0 <= m < qs@.len() implies qs@[m] <= mx by {
                        lemma_reduce_nonneg(self.reducer, cells[idx as int][m]);
                        lemma_component_le_total(self.reducer, cells, idx as int, m, nauthors);
                        assert(0 <= bucket_total_to(self.reducer, cells, idx as int, nauthors)
                            <= usize::MAX);
                        assert(tseq[idx as int] == bucket_total_to(
                            self.reducer,
                            cells,
                            idx as int,
                            nauthors,
                        ) as usize);
                        lemma_minmax_bounds(tseq, idx as int);
                        assert(tseq[idx as int] <= max_of(tseq));
                        assert(qs@[m] == reduce_spec(self.reducer, cells[idx as int][m]) as usize);
                        assert(reduce_spec(self.reducer, cells[idx as int][m]) <= tseq[
                            idx as int
                        ]);
                    }
                }
                let bar = generate_progress_bar(self.width, '#', '-', mx, qs.as_slice());
                let label = &self.labels[idx];
                s.append(label.as_str());
                s.append(" | ");
                s.append(bar.as_str());
                s.append("\n");
                proof {
                    assert(s@ =~= legend_done + lines_to(
                        self.label_style,
                        self.reducer,
                        cells,
                        nauthors,
                        self.start_idx as int,
                        self.width as int,
                        max_of(tseq),
                        k + 1,
                    ));
                }
                k = k + 1;
            }
        }
        proof {
            assert(s@ =~= render_spec(
                names(self.authors@),
                self.label_style,
                self.reducer,
                cells_of(*self),
                self.start_idx as int,
                self.width as int,
            ));
        }
        s
    }
}

/// The exact sum of a value list, in 128-bit arithmetic.
fn sum_u128(data: &Vec<usize>) -> (r: u128)
    ensures
        r == sum_spec(data@),
{
    let mut acc: u128 = 0;
    let mut i: usize = 0;
    assert(data@.take(0) =~= Seq::<usize>::empty());
    while i < data.len()
        invariant
            0 <= i <= data@.len(),
            acc == sum_spec(data@.take(i as int)),
            acc <= i * 18446744073709551615,
        decreases data@.len() - i,
    {
        proof {
            assert(data@.take(i + 1).drop_last() =~= data@.take(i as int));
            assert(data@.take(i + 1).last() == data@[i as int]);
            assert((i + 1) * 18446744073709551615 == i * 18446744073709551615
                + 18446744073709551615) by (nonlinear_arith);
            assert((i + 1) * 18446744073709551615 <= 340282366920938463463374607431768211455)
                by (nonlinear_arith)
                requires
                    0 <= i + 1 <= 18446744073709551615,
            ;
        }
        acc = acc + data[i] as u128;
        i = i + 1;
    }
    proof {
        assert(data@.take(data@.len() as int) =~= data@);
    }
    acc
}

impl Graph {
    /// Renders the graph if its data sits inside the engine's documented
    /// bounds (bucket count, per-bucket totals, machine integer range),
    /// and reports `None` if it does not.
    pub fn try_render(&self) -> (r: Option<String>)
        requires
            self.wf(),
        ensures
            match r {
                Some(s) => render_ok(self.reducer, cells_of(*self), self.authors@.len() as int)
                    && s@ == render_spec(
                    names(self.authors@),
                    self.label_style,
                    self.reducer,
                    cells_of(*self),
                    self.start_idx as int,
                    self.width as int,
                ),
                None => !render_ok(self.reducer, cells_of(*self), self.authors@.len() as int),
            },
    {
        let ghost cells = cells_of(*self);
        let ghost nauthors = self.authors@.len() as int;
        let nbuckets = self.data.len();
        if nbuckets > MAX_BUCKETS {
            return None;
        }
        let mut b: usize = 0;
        while b < nbuckets
            invariant
                0 <= b <= nbuckets,
                nbuckets == self.data@.len(),
                self.wf(),
                cells == cells_of(*self),
                nauthors == self.authors@.len() as int,
                forall|bb: int, j: int|
                    0 <= bb < b && 0 <= j < nauthors ==> sum_spec(#[trigger] cells[bb][j])
                        <= usize::MAX,
            decreases nbuckets - b,
        {
            let mut j: usize = 0;
            while j < self.authors.len()
                invariant
                    0 <= j <= nauthors,
                    0 <= b < self.data@.len(),
                    nbuckets == self.data@.len(),
                    self.wf(),
                    cells == cells_of(*self),
                    nauthors == self.authors@.len() as int,
                    forall|bb: int, jj: int|
                        0 <= bb < b && 0 <= jj < nauthors ==> sum_spec(#[trigger] cells[bb][jj])
                            <= usize::MAX,
                    forall|jj: int|
                        0 <= jj < j ==> sum_spec(#[trigger] cells[b as int][jj]) <= usize::MAX,
                decreases nauthors - j,
            {
                proof {
                    assert(cells[b as int][j as int] == cell(*self, b as int, j as int));
                }
                let cs = sum_u128(&self.data[b][j]);
                if cs > usize::MAX as u128 {
                    return None;
                }
                j = j + 1;
            }
            b = b + 1;
        }
        let mut b2: usize = 0;
        while b2 < nbuckets
            invariant
                0 <= b2 <= nbuckets,
                nbuckets == self.data@.len(),
                self.wf(),
                cells == cells_of(*self),
                nauthors == self.authors@.len() as int,
                forall|bb: int, j: int|
                    0 <= bb < nbuckets && 0 <= j < nauthors ==> sum_spec(#[trigger] cells[bb][j])
                        <= usize::MAX,
                forall|bb: int|
                    0 <= bb < b2 ==> 0 <= #[trigger] bucket_total_to(
                        self.reducer,
                        cells,
                        bb,
                        nauthors,
                    ) <= MAX_BUCKET_TOTAL && bucket_total_to(self.reducer, cells, bb, nauthors)
                        <= usize::MAX,
            decreases nbuckets - b2,
        {
            let mut t: u128 = 0;
            let mut j: usize = 0;
            while j < self.authors.len()
                invariant
                    0 <= j <= nauthors,
                    0 <= b2 < self.data@.len(),
                    nbuckets == self.data@.len(),
                    self.wf(),
                    cells == cells_of(*self),
                    nauthors == self.authors@.len() as int,
                    forall|bb: int, jj: int|
                        0 <= bb < nbuckets && 0 <= jj < nauthors ==> sum_spec(
                            #[trigger] cells[bb][jj],
                        ) <= usize::MAX,
                    t == bucket_total_to(self.reducer, cells, b2 as int, j as int),
                    t <= j * 18446744073709551615,
                decreases nauthors - j,
            {
                proof {
                    assert(cells[b2 as int][j as int] == cell(*self, b2 as int, j as int));
                    lemma_reduce_nonneg(self.reducer, cells[b2 as int][j as int]);
                    assert((j + 1) * 18446744073709551615 == j * 18446744073709551615
                        + 18446744073709551615) by (nonlinear_arith);
                    assert((j + 1) * 18446744073709551615
                        <= 340282366920938463463374607431768211455) by (nonlinear_arith)
                        requires
                            0 <= j + 1 <= 18446744073709551615,
                    ;
                }
                let red = self.reducer.apply(self.data[b2][j].as_slice());
                t = t + red as u128;
                j = j + 1;
            }
            if t > MAX_BUCKET_TOTAL as u128 || t > usize::MAX as u128 {
                return None;
            }
            b2 = b2 + 1;
        }
        let mut totals_acc: u128 = 0;
        let ghost tseq = totals_of(self.reducer, cells, nauthors);
        let mut b3: usize = 0;
        proof {
            assert(tseq.take(0) =~= Seq::<usize>::empty());
        }
        while b3 < nbuckets
            invariant
                0 <= b3 <= nbuckets,
                nbuckets == self.data@.len(),
                self.wf(),
                cells == cells_of(*self),
                nauthors == self.authors@.len() as int,
                tseq == totals_of(self.reducer, cells, nauthors),
                forall|bb: int, j: int|
                    0 <= bb < nbuckets && 0 <= j < nauthors ==> sum_spec(#[trigger] cells[bb][j])
                        <= usize::MAX,
                forall|bb: int|
                    0 <= bb < nbuckets ==> 0 <= #[trigger] bucket_total_to(
                        self.reducer,
                        cells,
                        bb,
                        nauthors,
                    ) <= MAX_BUCKET_TOTAL && bucket_total_to(self.reducer, cells, bb, nauthors)
                        <= usize::MAX,
                totals_acc == sum_spec(tseq.take(b3 as int)),
                totals_acc <= b3 * 18446744073709551615,
            decreases nbuckets - b3,
        {
            let mut t: u128 = 0;
            let mut j: usize = 0;
            while j < self.authors.len()
                invariant
                    0 <= j <= nauthors,
                    0 <= b3 < self.data@.len(),
                    nbuckets == self.data@.len(),
                    self.wf(),
                    cells == cells_of(*self),
                    nauthors == self.authors@.len() as int,
                    forall|bb: int, jj: int|
                        0 <= bb < nbuckets && 0 <= jj < nauthors ==> sum_spec(
                            #[trigger] cells[bb][jj],
                        ) <= usize::MAX,
                    t == bucket_total_to(self.reducer, cells, b3 as int, j as int),
                    t <= j * 18446744073709551615,
                decreases nauthors - j,
            {
                proof {
                    assert(cells[b3 as int][j as int] == cell(*self, b3 as int, j as int));
                    lemma_reduce_nonneg(self.reducer, cells[b3 as int][j as int]);
                    assert((j + 1) * 18446744073709551615 == j * 18446744073709551615
                        + 18446744073709551615) by (nonlinear_arith);
                    assert((j + 1) * 18446744073709551615
                        <= 340282366920938463463374607431768211455) by (nonlinear_arith)
                        requires
                            0 <= j + 1 <= 18446744073709551615,
                    ;
                }
                let red = self.reducer.apply(self.data[b3][j].as_slice());
                t = t + red as u128;
                j = j + 1;
            }
            proof {
                assert(tseq.take(b3 + 1).drop_last() =~= tseq.take(b3 as int));
                assert(tseq.take(b3 + 1).last() == tseq[b3 as int]);
                assert(tseq[b3 as int] == bucket_total_to(
                    self.reducer,
                    cells,
                    b3 as int,
                    nauthors,
                ) as usize);
                assert((b3 + 1) * 18446744073709551615 == b3 * 18446744073709551615
                    + 18446744073709551615) by (nonlinear_arith);
                assert((b3 + 1) * 18446744073709551615 <= 340282366920938463463374607431768211455)
                    by (nonlinear_arith)
                    requires
                        0 <= b3 + 1 <= 18446744073709551615,
                ;
            }
            totals_acc = totals_acc + t;
            b3 = b3 + 1;
        }
        proof {
            assert(tseq.take(nbuckets as int) =~= tseq);
        }
        if totals_acc > usize::MAX as u128 {
            return None;
        }
        Some(self.render())
    }
}

/// A partial bucket total never exceeds the full one.
pub proof fn lemma_partial_le_total(
    red: Reducer,
    cells: Seq<Seq<Seq<usize>>>,
    b: int,
    j: int,
    n: int,
)
    requires
        0 <= j <= n,
    ensures
        bucket_total_to(red, cells, b, j) <= bucket_total_to(red, cells, b, n),
    decreases n - j,
{
    if j < n {
        lemma_partial_le_total(red, cells, b, j + 1, n);
        lemma_reduce_nonneg(red, cells[b][j]);
    }
}

} // verus!
