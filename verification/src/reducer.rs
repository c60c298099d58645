//! Reducers: pure functions collapsing the raw values of one bucket cell
//! into a single scalar.

use vstd::prelude::*;

verus! {

/// The integer sum of a sequence of values.
pub open spec fn sum_spec(s: Seq<usize>) -> int
    decreases s.len(),
{
    if s.len() == 0 {
        0
    } else {
        sum_spec(s.drop_last()) + s.last()
    }
}

pub proof fn lemma_sum_nonneg(s: Seq<usize>)
    ensures
        sum_spec(s) >= 0,
    decreases s.len(),
{
    if s.len() > 0 {
        lemma_sum_nonneg(s.drop_last());
    }
}

/// A prefix never sums to more than the whole.
pub proof fn lemma_sum_take_le(s: Seq<usize>, i: int)
    requires
        0 <= i <= s.len(),
    ensures
        sum_spec(s.take(i)) <= sum_spec(s),
    decreases s.len() - i,
{
    if i < s.len() {
        assert(s.take(i + 1).drop_last() =~= s.take(i));
        lemma_sum_take_le(s, i + 1);
    } else {
        assert(s.take(i) =~= s);
    }
}

/// What a reducer yields on a cell's raw values: the arithmetic total, or
/// the mean with an empty input defined as zero.
pub open spec fn reduce_spec(r: Reducer, s: Seq<usize>) -> int {
    match r {
        Reducer::Sum => sum_spec(s),
        Reducer::Average => if s.len() == 0 {
            0
        } else {
            sum_spec(s) / s.len() as int
        },
    }
}

/// The strategy a `Graph` uses to collapse each cell's raw values.
#[derive(Copy, Clone, PartialEq, Eq, Structural)]
pub enum Reducer {
    Sum,
    Average,
}

impl Reducer {
    /// Applies the reducer to one cell's raw values.
    pub fn apply(&self, data: &[usize]) -> (r: usize)
        requires
            sum_spec(data@) <= usize::MAX,
        ensures
            r == reduce_spec(*self, data@),
    {
        match self {
            Reducer::Sum => dataset_sum(data),
            Reducer::Average => dataset_average(data),
        }
    }
}

/// The arithmetic total of a dataset.
pub fn dataset_sum(data: &[usize]) -> (r: usize)
    requires
        sum_spec(data@) <= usize::MAX,
    ensures
        r == sum_spec(data@),
{
    let mut acc: usize = 0;
    let mut i: usize = 0;
    assert(data@.take(0) =~= Seq::<usize>::empty());
    while i < data.len()
        invariant
            0 <= i <= data@.len(),
            acc == sum_spec(data@.take(i as int)),
            sum_spec(data@) <= usize::MAX,
        decreases data@.len() - i,
    {
        assert(data@.take(i + 1).drop_last() =~= data@.take(i as int));
        assert(data@.take(i + 1).last() == data@[i as int]);
        proof {
            lemma_sum_take_le(data@, i + 1);
            lemma_sum_nonneg(data@.take(i as int));
        }
        acc = acc + data[i];
        i = i + 1;
    }
    assert(data@.take(data@.len() as int) =~= data@);
    acc
}

/// The mean of a dataset; an empty dataset yields zero, not a fault.
pub fn dataset_average(data: &[usize]) -> (r: usize)
    requires
        sum_spec(data@) <= usize::MAX,
    ensures
        data@.len() == 0 ==> r == 0,
        data@.len() > 0 ==> r == sum_spec(data@) / data@.len() as int,
{
    let total = dataset_sum(data);
    if data.len() == 0 {
        0
    } else {
        proof {
            lemma_sum_nonneg(data@);
        }
        assert(total as int / data@.len() as int >= 0) by (nonlinear_arith)
            requires
                total >= 0 && data@.len() > 0,
        ;
        assert(total as int / data@.len() as int <= total) by (nonlinear_arith)
            requires
                total >= 0 && data@.len() >= 1,
        ;
        total / data.len()
    }
}

} // verus!
