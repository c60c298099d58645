//! The interval splitter: apportions an interval's duration across the
//! circular sequence of time buckets it overlaps, wrapping past the end of
//! the cycle.

use vstd::prelude::*;

verus! {

/// The parts emitted after the first bucket: full buckets of `width` until
/// the remainder `r` runs out, indices wrapping modulo `n`.
pub open spec fn rest_spec(b: int, r: int, width: int, n: int) -> Seq<(usize, usize)>
    recommends
        width >= 1,
        n >= 1,
        r >= 1,
    decreases r,
{
    let piece = if r < width {
        r
    } else {
        width
    };
    let first = seq![(((b % n) as usize), (piece as usize))];
    if r > width && width >= 1 {
        first + rest_spec(b + 1, r - width, width, n)
    } else {
        first
    }
}

/// Every part an interval contributes: the partial head bucket, then full
/// buckets until the duration is exhausted.
pub open spec fn split_spec(start: int, duration: int, width: int, n: int) -> Seq<(usize, usize)>
    recommends
        width >= 1,
        n >= 1,
{
    let s = start % (width * n);
    let b0 = s / width;
    let head = width - s % width;
    let first_piece = if duration < head {
        duration
    } else {
        head
    };
    let first = seq![((b0 as usize), (first_piece as usize))];
    if duration > head {
        first + rest_spec(b0 + 1, duration - head, width, n)
    } else {
        first
    }
}

/// The total duration a sequence of parts carries.
pub open spec fn parts_sum_spec(s: Seq<(usize, usize)>) -> int
    decreases s.len(),
{
    if s.len() == 0 {
        0
    } else {
        parts_sum_spec(s.drop_last()) + s.last().1
    }
}

proof fn lemma_parts_sum_singleton(p: (usize, usize))
    ensures
        parts_sum_spec(seq![p]) == p.1,
{
    let s = seq![p];
    assert(s.len() == 1);
    assert(s.drop_last() =~= Seq::<(usize, usize)>::empty());
    assert(parts_sum_spec(s.drop_last()) == 0);
    assert(s.last() == p);
}

proof fn lemma_parts_sum_concat(a: Seq<(usize, usize)>, b: Seq<(usize, usize)>)
    ensures
        parts_sum_spec(a + b) == parts_sum_spec(a) + parts_sum_spec(b),
    decreases b.len(),
{
    if b.len() == 0 {
        assert(a + b =~= a);
    } else {
        assert((a + b).drop_last() =~= a + b.drop_last());
        lemma_parts_sum_concat(a, b.drop_last());
    }
}

/// The parts after the head carry exactly the remainder.
proof fn lemma_rest_sum(b: int, r: int, width: int, n: int)
    requires
        width >= 1,
        n >= 1,
        1 <= r,
        width <= usize::MAX,
        n <= usize::MAX,
    ensures
        parts_sum_spec(rest_spec(b, r, width, n)) == r,
    decreases r,
{
    let piece = if r < width {
        r
    } else {
        width
    };
    vstd::arithmetic::div_mod::lemma_mod_bound(b, n);
    let first = seq![(((b % n) as usize), (piece as usize))];
    lemma_parts_sum_singleton(((b % n) as usize, piece as usize));
    assert(parts_sum_spec(first) == piece);
    if r > width {
        lemma_rest_sum(b + 1, r - width, width, n);
        lemma_parts_sum_concat(first, rest_spec(b + 1, r - width, width, n));
    }
}

/// Conservation: the emitted parts always sum to the interval's duration,
/// no loss and no double count, however many times the cycle wraps.
pub proof fn lemma_split_sum(start: int, duration: int, width: int, n: int)
    requires
        start >= 0,
        duration >= 0,
        width >= 1,
        n >= 1,
        duration <= usize::MAX,
        width * n <= usize::MAX,
    ensures
        parts_sum_spec(split_spec(start, duration, width, n)) == duration,
{
    let c = width * n;
    assert(c >= 1 && width <= c && n <= c) by (nonlinear_arith)
        requires
            width >= 1 && n >= 1 && c == width * n,
    ;
    let s = start % c;
    assert(0 <= s < c) by {
        vstd::arithmetic::div_mod::lemma_mod_bound(start, c);
    }
    assert(s / width <= s) by (nonlinear_arith)
        requires
            s >= 0 && width >= 1,
    ;
    assert(0 <= s % width < width) by {
        vstd::arithmetic::div_mod::lemma_mod_bound(s, width);
    }
    let b0 = s / width;
    let head = width - s % width;
    let first_piece = if duration < head {
        duration
    } else {
        head
    };
    let first = seq![((b0 as usize), (first_piece as usize))];
    lemma_parts_sum_singleton((b0 as usize, first_piece as usize));
    assert(parts_sum_spec(first) == first_piece);
    if duration > head {
        lemma_rest_sum(b0 + 1, duration - head, width, n);
        lemma_parts_sum_concat(first, rest_spec(b0 + 1, duration - head, width, n));
    }
}

proof fn lemma_rest_indices(b: int, r: int, width: int, n: int)
    requires
        width >= 1,
        n >= 1,
        1 <= r,
        width <= usize::MAX,
        n <= usize::MAX,
    ensures
        forall|i: int|
            0 <= i < rest_spec(b, r, width, n).len() ==> (#[trigger] rest_spec(b, r, width, n)[i]).0
                < n,
    decreases r,
{
    vstd::arithmetic::div_mod::lemma_mod_bound(b, n);
    if r > width {
        lemma_rest_indices(b + 1, r - width, width, n);
        let first = seq![(((b % n) as usize), (width as usize))];
        let rest = rest_spec(b + 1, r - width, width, n);
        assert(forall|i: int|
            1 <= i < rest_spec(b, r, width, n).len() ==> rest_spec(b, r, width, n)[i] == rest[i
                - 1]);
    }
}

/// Every emitted bucket index is in range.
pub proof fn lemma_split_indices(start: int, duration: int, width: int, n: int)
    requires
        start >= 0,
        duration >= 0,
        width >= 1,
        n >= 1,
        duration <= usize::MAX,
        width * n <= usize::MAX,
    ensures
        forall|i: int|
            0 <= i < split_spec(start, duration, width, n).len() ==> (#[trigger] split_spec(
                start,
                duration,
                width,
                n,
            )[i]).0 < n,
{
    let c = width * n;
    assert(c >= 1 && width <= c && n <= c) by (nonlinear_arith)
        requires
            width >= 1 && n >= 1 && c == width * n,
    ;
    let s = start % c;
    assert(0 <= s < c) by {
        vstd::arithmetic::div_mod::lemma_mod_bound(start, c);
    }
    let b0 = s / width;
    assert(b0 < n && b0 >= 0) by (nonlinear_arith)
        requires
            0 <= s < width * n && width >= 1 && n >= 1 && b0 == s / width,
    ;
    let head = width - s % width;
    if duration > head {
        lemma_rest_indices(b0 + 1, duration - head, width, n);
        let parts = split_spec(start, duration, width, n);
        let rest = rest_spec(b0 + 1, duration - head, width, n);
        assert(forall|i: int| 1 <= i < parts.len() ==> parts[i] == rest[i - 1]);
    }
}

/// Splits the interval starting `start` milliseconds into the cycle, of the
/// given duration, over `n_buckets` buckets of `width` milliseconds each.
///
/// The head part covers the span from `start` to the end of its bucket
/// (clamped to the duration); each following part covers one full bucket
/// or the remainder, whichever is smaller, indices wrapping modulo
/// `n_buckets`. An interval contained in one bucket emits exactly one
/// part, and the parts always sum to `duration` exactly.
pub fn split_interval(start: usize, duration: usize, width: usize, n_buckets: usize) -> (r: Vec<
    (usize, usize),
>)
    requires
        width >= 1,
        n_buckets >= 1,
        width * n_buckets <= usize::MAX,
    ensures
        r@ == split_spec(start as int, duration as int, width as int, n_buckets as int),
        parts_sum_spec(r@) == duration,
        forall|i: int| 0 <= i < r@.len() ==> (#[trigger] r@[i]).0 < n_buckets,
        duration <= (width - start % width) ==> r@.len() == 1,
{
    proof {
        lemma_split_sum(start as int, duration as int, width as int, n_buckets as int);
        lemma_split_indices(start as int, duration as int, width as int, n_buckets as int);
    }
    let c = width * n_buckets;
    proof {
        assert(c >= 1) by (nonlinear_arith)
            requires
                width >= 1 && n_buckets >= 1 && c == width * n_buckets,
        ;
    }
    let s = start % c;
    proof {
        vstd::arithmetic::div_mod::lemma_mod_bound(start as int, c as int);
    }
    let b0 = s / width;
    proof {
        assert(b0 < n_buckets) by (nonlinear_arith)
            requires
                0 <= s < width * n_buckets && width >= 1 && n_buckets >= 1 && b0 == s / width,
        ;
        vstd::arithmetic::div_mod::lemma_mod_bound(s as int, width as int);
        assert(s % width == start % width) by {
            vstd::arithmetic::div_mod::lemma_mod_mod(start as int, width as int, n_buckets as int);
        }
    }
    let head = width - s % width;
    let ghost d = duration as int;
    let ghost w = width as int;
    let ghost n = n_buckets as int;
    let ghost whole = split_spec(start as int, d, w, n);
    let mut parts: Vec<(usize, usize)> = Vec::new();
    let first_piece = if duration < head {
        duration
    } else {
        head
    };
    parts.push((b0, first_piece));
    if duration > head {
        let mut remaining = duration - head;
        let mut b = if b0 + 1 == n_buckets {
            0
        } else {
            b0 + 1
        };
        let ghost mut bi: int = b0 as int + 1;
        proof {
            assert(b == bi % n) by {
                if b0 as int + 1 == n {
                    vstd::arithmetic::div_mod::lemma_mod_self_0(n);
                } else {
                    vstd::arithmetic::div_mod::lemma_small_mod((b0 + 1) as nat, n_buckets as nat);
                }
            }
        }
        loop
            invariant_except_break
                whole =~= parts@ + rest_spec(bi, remaining as int, w, n),
            invariant
                width >= 1,
                n_buckets >= 1,
                1 <= remaining,
                0 <= b < n_buckets,
                b == bi % n,
                w == width as int,
                n == n_buckets as int,
            ensures
                parts@ =~= whole,
            decreases remaining,
        {
            let piece = if remaining < width {
                remaining
            } else {
                width
            };
            let ghost rest_here = rest_spec(bi, remaining as int, w, n);
            parts.push((b, piece));
            if remaining > width {
                remaining = remaining - width;
                b = if b + 1 == n_buckets {
                    0
                } else {
                    b + 1
                };
                proof {
                    let old_bi = bi;
                    bi = bi + 1;
                    assert(rest_here == seq![((old_bi % n) as usize, width as usize)] + rest_spec(
                        bi,
                        remaining as int,
                        w,
                        n,
                    ));
                    assert(parts@ + rest_spec(bi, remaining as int, w, n) =~= whole);
                    assert(b == bi % n) by {
                        vstd::arithmetic::div_mod::lemma_add_mod_noop(old_bi, 1, n);
                        vstd::arithmetic::div_mod::lemma_mod_bound(old_bi, n);
                        if old_bi % n + 1 == n {
                            vstd::arithmetic::div_mod::lemma_mod_self_0(n);
                        } else {
                            vstd::arithmetic::div_mod::lemma_small_mod(
                                (old_bi % n + 1) as nat,
                                n_buckets as nat,
                            );
                        }
                        if n == 1 {
                        } else {
                            vstd::arithmetic::div_mod::lemma_small_mod(1nat, n_buckets as nat);
                        }
                    }
                }
            } else {
                proof {
                    assert(rest_here =~= seq![((bi % n) as usize, piece as usize)]);
                    assert(parts@ =~= whole);
                }
                break ;
            }
        }
    }
    parts
}

} // verus!
