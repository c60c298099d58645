//! A fixed-point time quantity: day/hour/minute/second/millisecond components
//! backed by an exact total count of milliseconds.

use vstd::prelude::*;
use crate::num_fmt::{dec_spec, padded_spec, usize_to_string, padded_to_string};

verus! {

pub const MS_PER_SECOND: usize = 1000;

pub const MS_PER_MINUTE: usize = 60000;

pub const MS_PER_HOUR: usize = 3600000;

pub const MS_PER_DAY: usize = 86400000;

/// A span of time, decomposed for display. The components are not forced to
/// be normalized: `new` accepts any values, and the arithmetic operations
/// always return normalized results.
#[derive(Copy, Clone, Default)]
pub struct TimeQuantity {
    pub days: usize,
    pub hours: usize,
    pub minutes: usize,
    pub seconds: usize,
    pub milliseconds: usize,
}

/// The total number of milliseconds a quantity stands for.
pub open spec fn total_ms_spec(t: TimeQuantity) -> int {
    t.days * (MS_PER_DAY as int) + t.hours * (MS_PER_HOUR as int) + t.minutes * (
    MS_PER_MINUTE as int) + t.seconds * (MS_PER_SECOND as int) + t.milliseconds
}

/// The decomposition of a millisecond count into normalized components.
pub open spec fn decompose_spec(u: int) -> TimeQuantity {
    let d = u / (MS_PER_DAY as int);
    let r1 = u % (MS_PER_DAY as int);
    let h = r1 / (MS_PER_HOUR as int);
    let r2 = r1 % (MS_PER_HOUR as int);
    let m = r2 / (MS_PER_MINUTE as int);
    let r3 = r2 % (MS_PER_MINUTE as int);
    TimeQuantity {
        days: d as usize,
        hours: h as usize,
        minutes: m as usize,
        seconds: (r3 / (MS_PER_SECOND as int)) as usize,
        milliseconds: (r3 % (MS_PER_SECOND as int)) as usize,
    }
}

/// All components below their carry limit.
pub open spec fn normalized(t: TimeQuantity) -> bool {
    t.hours < 24 && t.minutes < 60 && t.seconds < 60 && t.milliseconds < 1000
}

/// Decomposing a millisecond count and summing the components back always
/// reconstructs the count exactly, and the components are normalized.
pub proof fn lemma_decompose_round_trip(u: int)
    requires
        0 <= u <= usize::MAX,
    ensures
        total_ms_spec(decompose_spec(u)) == u,
        normalized(decompose_spec(u)),
        decompose_spec(u).days <= u / (MS_PER_DAY as int),
{
    let d = u / (MS_PER_DAY as int);
    let r1 = u % (MS_PER_DAY as int);
    let h = r1 / (MS_PER_HOUR as int);
    let r2 = r1 % (MS_PER_HOUR as int);
    let m = r2 / (MS_PER_MINUTE as int);
    let r3 = r2 % (MS_PER_MINUTE as int);
    let s = r3 / (MS_PER_SECOND as int);
    let ms = r3 % (MS_PER_SECOND as int);
    assert(u == (MS_PER_DAY as int) * d + r1 && 0 <= r1 < MS_PER_DAY as int) by {
        vstd::arithmetic::div_mod::lemma_fundamental_div_mod(u, MS_PER_DAY as int);
    }
    assert(r1 == (MS_PER_HOUR as int) * h + r2 && 0 <= r2 < MS_PER_HOUR as int) by {
        vstd::arithmetic::div_mod::lemma_fundamental_div_mod(r1, MS_PER_HOUR as int);
    }
    assert(r2 == (MS_PER_MINUTE as int) * m + r3 && 0 <= r3 < MS_PER_MINUTE as int) by {
        vstd::arithmetic::div_mod::lemma_fundamental_div_mod(r2, MS_PER_MINUTE as int);
    }
    assert(r3 == (MS_PER_SECOND as int) * s + ms && 0 <= ms < MS_PER_SECOND as int) by {
        vstd::arithmetic::div_mod::lemma_fundamental_div_mod(r3, MS_PER_SECOND as int);
    }
    assert(h < 24 && m < 60 && s < 60) by (nonlinear_arith)
        requires
            r1 < 86400000 && h == r1 / 3600000 && 0 <= r1,
            r2 < 3600000 && m == r2 / 60000 && 0 <= r2,
            r3 < 60000 && s == r3 / 1000 && 0 <= r3,
    ;
}

impl TimeQuantity {
    /// Builds a quantity from explicit components, normalized or not.
    pub fn new(days: usize, hours: usize, minutes: usize, seconds: usize, milliseconds: usize) -> (
        r: Self)
        ensures
            r == (TimeQuantity { days, hours, minutes, seconds, milliseconds }),
    {
        Self { days, hours, minutes, seconds, milliseconds }
    }

    /// The zero quantity.
    pub fn zero() -> (r: Self)
        ensures
            r == decompose_spec(0),
            total_ms_spec(r) == 0,
    {
        Self { days: 0, hours: 0, minutes: 0, seconds: 0, milliseconds: 0 }
    }

    /// Decomposes a millisecond count into normalized components.
    pub fn from_milliseconds(u: usize) -> (r: Self)
        ensures
            r == decompose_spec(u as int),
            total_ms_spec(r) == u,
            normalized(r),
    {
        proof {
            lemma_decompose_round_trip(u as int);
        }
        let mut ms = u;
        let days = ms / MS_PER_DAY;
        ms = ms - days * MS_PER_DAY;
        proof {
            vstd::arithmetic::div_mod::lemma_fundamental_div_mod(u as int, MS_PER_DAY as int);
        }
        let hours = ms / MS_PER_HOUR;
        let ghost r1 = ms as int;
        ms = ms - hours * MS_PER_HOUR;
        proof {
            vstd::arithmetic::div_mod::lemma_fundamental_div_mod(r1, MS_PER_HOUR as int);
        }
        let minutes = ms / MS_PER_MINUTE;
        let ghost r2 = ms as int;
        ms = ms - minutes * MS_PER_MINUTE;
        proof {
            vstd::arithmetic::div_mod::lemma_fundamental_div_mod(r2, MS_PER_MINUTE as int);
        }
        let seconds = ms / MS_PER_SECOND;
        let ghost r3 = ms as int;
        ms = ms - seconds * MS_PER_SECOND;
        proof {
            vstd::arithmetic::div_mod::lemma_fundamental_div_mod(r3, MS_PER_SECOND as int);
        }
        Self { days, hours, minutes, seconds, milliseconds: ms }
    }

    /// The exact millisecond count the components sum to.
    pub fn to_milliseconds(&self) -> (r: usize)
        requires
            total_ms_spec(*self) <= usize::MAX,
        ensures
            r == total_ms_spec(*self),
    {
        self.days * MS_PER_DAY + self.hours * MS_PER_HOUR + self.minutes * MS_PER_MINUTE
            + self.seconds * MS_PER_SECOND + self.milliseconds
    }

    /// Adds two quantities; the result is normalized.
    pub fn add(self, rhs: Self) -> (r: Self)
        requires
            total_ms_spec(self) <= usize::MAX,
            total_ms_spec(rhs) <= usize::MAX,
            total_ms_spec(self) + total_ms_spec(rhs) <= usize::MAX,
        ensures
            r == decompose_spec(total_ms_spec(self) + total_ms_spec(rhs)),
            total_ms_spec(r) == total_ms_spec(self) + total_ms_spec(rhs),
    {
        proof {
            lemma_decompose_round_trip(total_ms_spec(self) + total_ms_spec(rhs));
        }
        Self::from_milliseconds(self.to_milliseconds() + rhs.to_milliseconds())
    }

    /// Scales a quantity by an integer factor.
    pub fn mul(self, rhs: usize) -> (r: Self)
        requires
            total_ms_spec(self) <= usize::MAX,
            total_ms_spec(self) * rhs <= usize::MAX,
        ensures
            r == decompose_spec(total_ms_spec(self) * rhs),
            total_ms_spec(r) == total_ms_spec(self) * rhs,
    {
        proof {
            assert(total_ms_spec(self) * rhs >= 0) by (nonlinear_arith)
                requires
                    total_ms_spec(self) >= 0 && rhs >= 0,
            ;
            lemma_decompose_round_trip(total_ms_spec(self) * rhs);
        }
        Self::from_milliseconds(self.to_milliseconds() * rhs)
    }

    /// Divides a quantity by a count. Division by zero yields the zero
    /// quantity, the defined value for the "no data" case.
    pub fn div(self, rhs: usize) -> (r: Self)
        requires
            total_ms_spec(self) <= usize::MAX,
        ensures
            r == decompose_spec(
                if rhs == 0 {
                    0
                } else {
                    total_ms_spec(self) / rhs as int
                },
            ),
            rhs != 0 ==> total_ms_spec(r) == total_ms_spec(self) / rhs as int,
            rhs == 0 ==> total_ms_spec(r) == 0,
    {
        let total = self.to_milliseconds();
        if rhs == 0 {
            proof {
                lemma_decompose_round_trip(0);
            }
            Self::from_milliseconds(0)
        } else {
            proof {
                assert(total as int / rhs as int >= 0) by (nonlinear_arith)
                    requires
                        total >= 0 && rhs > 0,
                ;
                assert(total as int / rhs as int <= total as int) by (nonlinear_arith)
                    requires
                        total >= 0 && rhs >= 1,
                ;
                lemma_decompose_round_trip(total as int / rhs as int);
            }
            Self::from_milliseconds(total / rhs)
        }
    }
}

/// The millisecond total of a sequence of quantities.
pub open spec fn total_sum_spec(s: Seq<TimeQuantity>) -> int
    decreases s.len(),
{
    if s.len() == 0 {
        0
    } else {
        total_sum_spec(s.drop_last()) + total_ms_spec(s.last())
    }
}

impl TimeQuantity {
    /// Sums a list of quantities into one normalized quantity.
    pub fn sum(quantities: &[TimeQuantity]) -> (r: Self)
        requires
            forall|i: int|
                0 <= i < quantities@.len() ==> total_ms_spec(#[trigger] quantities@[i])
                    <= usize::MAX,
            total_sum_spec(quantities@) <= usize::MAX,
            forall|i: int|
                0 <= i <= quantities@.len() ==> #[trigger] total_sum_spec(
                    quantities@.take(i),
                ) <= usize::MAX,
        ensures
            total_ms_spec(r) == total_sum_spec(quantities@),
    {
        let mut acc = Self::zero();
        let mut i: usize = 0;
        assert(quantities@.take(0) =~= Seq::<TimeQuantity>::empty());
        while i < quantities.len()
            invariant
                0 <= i <= quantities@.len(),
                total_ms_spec(acc) == total_sum_spec(quantities@.take(i as int)),
                forall|j: int|
                    0 <= j < quantities@.len() ==> total_ms_spec(#[trigger] quantities@[j])
                        <= usize::MAX,
                forall|j: int|
                    0 <= j <= quantities@.len() ==> #[trigger] total_sum_spec(
                        quantities@.take(j),
                    ) <= usize::MAX,
            decreases quantities@.len() - i,
        {
            assert(quantities@.take(i + 1).drop_last() =~= quantities@.take(i as int));
            assert(quantities@.take(i + 1).last() == quantities@[i as int]);
            assert(total_sum_spec(quantities@.take(i + 1)) == total_sum_spec(
                quantities@.take(i as int),
            ) + total_ms_spec(quantities@[i as int]));
            proof {
                lemma_total_sum_nonneg(quantities@.take(i as int));
            }
            acc = acc.add(quantities[i]);
            i = i + 1;
        }
        assert(quantities@.take(quantities@.len() as int) =~= quantities@);
        acc
    }
}

pub proof fn lemma_total_sum_nonneg(s: Seq<TimeQuantity>)
    ensures
        total_sum_spec(s) >= 0,
    decreases s.len(),
{
    if s.len() > 0 {
        lemma_total_sum_nonneg(s.drop_last());
    }
}

/// The full rendering: all five components, zero-padded, as in
/// `1d02h03m04s005ms`.
pub open spec fn full_string_spec(t: TimeQuantity) -> Seq<char> {
    dec_spec(t.days as int) + "d"@ + padded_spec(t.hours as int, 2) + "h"@ + padded_spec(
        t.minutes as int,
        2,
    ) + "m"@ + padded_spec(t.seconds as int, 2) + "s"@ + padded_spec(t.milliseconds as int, 3)
        + "ms"@
}

/// The compact rendering: starts at the most significant nonzero component.
pub open spec fn compact_string_spec(t: TimeQuantity) -> Seq<char> {
    if t.days > 0 {
        full_string_spec(t)
    } else if t.hours > 0 {
        padded_spec(t.hours as int, 2) + "h"@ + padded_spec(t.minutes as int, 2) + "m"@
            + padded_spec(t.seconds as int, 2) + "s"@ + padded_spec(t.milliseconds as int, 3)
            + "ms"@
    } else if t.minutes > 0 {
        padded_spec(t.minutes as int, 2) + "m"@ + padded_spec(t.seconds as int, 2) + "s"@
            + padded_spec(t.milliseconds as int, 3) + "ms"@
    } else if t.seconds > 0 {
        padded_spec(t.seconds as int, 2) + "s"@ + padded_spec(t.milliseconds as int, 3) + "ms"@
    } else {
        padded_spec(t.milliseconds as int, 3) + "ms"@
    }
}

impl TimeQuantity {
    /// Renders all five components zero-padded, the form itemized lists use.
    pub fn to_string_full(&self) -> (r: String)
        ensures
            r@ == full_string_spec(*self),
    {
        let mut s = usize_to_string(self.days);
        s.append("d");
        s.append(padded_to_string(self.hours, 2).as_str());
        s.append("h");
        s.append(padded_to_string(self.minutes, 2).as_str());
        s.append("m");
        s.append(padded_to_string(self.seconds, 2).as_str());
        s.append("s");
        s.append(padded_to_string(self.milliseconds, 3).as_str());
        s.append("ms");
        assert(s@ =~= full_string_spec(*self));
        s
    }

    /// Renders from the most significant nonzero component downward, the
    /// form used for running text.
    pub fn to_string_compact(&self) -> (r: String)
        ensures
            r@ == compact_string_spec(*self),
    {
        if self.days > 0 {
            self.to_string_full()
        } else if self.hours > 0 {
            let mut s = padded_to_string(self.hours, 2);
            s.append("h");
            s.append(padded_to_string(self.minutes, 2).as_str());
            s.append("m");
            s.append(padded_to_string(self.seconds, 2).as_str());
            s.append("s");
            s.append(padded_to_string(self.milliseconds, 3).as_str());
            s.append("ms");
            assert(s@ =~= compact_string_spec(*self));
            s
        } else if self.minutes > 0 {
            let mut s = padded_to_string(self.minutes, 2);
            s.append("m");
            s.append(padded_to_string(self.seconds, 2).as_str());
            s.append("s");
            s.append(padded_to_string(self.milliseconds, 3).as_str());
            s.append("ms");
            assert(s@ =~= compact_string_spec(*self));
            s
        } else if self.seconds > 0 {
            let mut s = padded_to_string(self.seconds, 2);
            s.append("s");
            s.append(padded_to_string(self.milliseconds, 3).as_str());
            s.append("ms");
            assert(s@ =~= compact_string_spec(*self));
            s
        } else {
            let mut s = padded_to_string(self.milliseconds, 3);
            s.append("ms");
            assert(s@ =~= compact_string_spec(*self));
            s
        }
    }
}

} // verus!
