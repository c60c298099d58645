//! The circular bucket aggregator: per-bucket, per-author lists of raw
//! contributed values, grown on demand, with an ordered author registry.

use vstd::prelude::*;
use crate::labels::{label_ok, label_spec, style_wf, LabelStyle};
use crate::reducer::Reducer;

verus! {

/// The views of a list of author names.
pub open spec fn names(v: Seq<String>) -> Seq<Seq<char>> {
    v.map_values(|s: String| s@)
}

/// The index of the first occurrence of `a`, or -1 if `a` does not occur.
pub open spec fn find_author(ns: Seq<Seq<char>>, a: Seq<char>) -> int
    decreases ns.len(),
{
    if ns.len() == 0 {
        -1
    } else if ns[0] == a {
        0
    } else {
        let r = find_author(ns.drop_first(), a);
        if r < 0 {
            -1
        } else {
            r + 1
        }
    }
}

pub proof fn lemma_find_author_properties(ns: Seq<Seq<char>>, a: Seq<char>)
    ensures
        find_author(ns, a) == -1 <==> (forall|j: int| 0 <= j < ns.len() ==> ns[j] != a),
        find_author(ns, a) >= 0 ==> 0 <= find_author(ns, a) < ns.len() && ns[find_author(ns, a)]
            == a && (forall|j: int| 0 <= j < find_author(ns, a) ==> ns[j] != a),
    decreases ns.len(),
{
    if ns.len() > 0 && ns[0] != a {
        let tail = ns.drop_first();
        lemma_find_author_properties(tail, a);
        assert(forall|j: int| 0 <= j < tail.len() ==> #[trigger] tail[j] == ns[j + 1]);
        let r = find_author(tail, a);
        if r < 0 {
            assert forall|j: int| 0 <= j < ns.len() implies ns[j] != a by {
                if j > 0 {
                    assert(tail[j - 1] == ns[j]);
                }
            }
        } else {
            assert(ns[r + 1] == tail[r]);
            assert forall|j: int| 0 <= j < r + 1 implies ns[j] != a by {
                if j > 0 {
                    assert(tail[j - 1] == ns[j]);
                }
            }
        }
        if forall|j: int| 0 <= j < ns.len() ==> ns[j] != a {
            assert forall|j: int| 0 <= j < tail.len() implies tail[j] != a by {
                assert(tail[j] == ns[j + 1]);
            }
        }
    }
}

pub proof fn lemma_find_author_at(ns: Seq<Seq<char>>, a: Seq<char>, i: int)
    requires
        0 <= i < ns.len(),
        ns[i] == a,
        forall|j: int| 0 <= j < i ==> ns[j] != a,
    ensures
        find_author(ns, a) == i,
    decreases ns.len(),
{
    if i > 0 {
        assert(forall|j: int|
            0 <= j < ns.drop_first().len() ==> #[trigger] ns.drop_first()[j] == ns[j + 1]);
        lemma_find_author_at(ns.drop_first(), a, i - 1);
    }
}

/// Relies on str's `PartialEq`: two string slices compare equal exactly
/// when their character sequences are equal.
#[verifier::external_body]
pub(crate) fn str_eq(a: &str, b: &str) -> (r: bool)
    ensures
        r == (a@ == b@),
{
    a == b
}

/// A time-bucketed aggregation: one growable slot per bucket, each holding
/// one list of raw values per registered author, plus everything needed to
/// render it (labels, rotation index, bar width, reducer).
pub struct Graph {
    pub labels: Vec<String>,
    pub authors: Vec<String>,
    pub data: Vec<Vec<Vec<usize>>>,
    pub start_idx: usize,
    pub width: usize,
    pub reducer: Reducer,
    pub label_style: LabelStyle,
}

/// The raw values of bucket `b` for author column `j`.
pub open spec fn cell(g: Graph, b: int, j: int) -> Seq<usize> {
    g.data@[b]@[j]@
}

impl Graph {
    /// Structural well-formedness: one label per bucket, each correct for
    /// the label style, and one value list per author in every bucket.
    pub open spec fn wf(self) -> bool {
        &&& self.labels@.len() == self.data@.len()
        &&& forall|b: int|
            0 <= b < self.data@.len() ==> (#[trigger] self.data@[b])@.len() == self.authors@.len()
        &&& style_wf(self.label_style)
        &&& forall|b: int|
            0 <= b < self.labels@.len() ==> (#[trigger] self.labels@[b])@ == label_spec(
                self.label_style,
                b,
            )
    }

    /// Builds an empty graph over the given author registry.
    pub fn new(
        authors: Vec<String>,
        start_idx: usize,
        label_style: LabelStyle,
        reducer: Reducer,
        width: usize,
    ) -> (g: Graph)
        requires
            style_wf(label_style),
        ensures
            g.wf(),
            g.authors == authors,
            g.start_idx == start_idx,
            g.label_style == label_style,
            g.reducer == reducer,
            g.width == width,
            g.data@.len() == 0,
            g.labels@.len() == 0,
    {
        Graph {
            labels: Vec::new(),
            authors,
            data: Vec::new(),
            start_idx,
            width,
            reducer,
            label_style,
        }
    }

    /// Records one raw value for `author` in bucket `idx`, growing the
    /// bucket array (and the parallel label array) if the bucket does not
    /// exist yet. An author outside the registry is reported by `false`
    /// and leaves the graph untouched.
    pub fn add(&mut self, author: &str, idx: usize, quantity: usize) -> (r: bool)
        requires
            old(self).wf(),
            label_ok(old(self).label_style, idx as int),
            idx < usize::MAX,
        ensures
            final(self).wf(),
            r == (find_author(names(old(self).authors@), author@) >= 0),
            !r ==> *final(self) == *old(self),
            r ==> {
                let a = find_author(names(old(self).authors@), author@);
                let oldlen = old(self).data@.len() as int;
                &&& final(self).authors == old(self).authors
                &&& final(self).start_idx == old(self).start_idx
                &&& final(self).width == old(self).width
                &&& final(self).reducer == old(self).reducer
                &&& final(self).label_style == old(self).label_style
                &&& final(self).data@.len() == if idx + 1 > oldlen {
                    idx + 1
                } else {
                    oldlen
                }
                &&& forall|b: int, j: int|
                    0 <= b < final(self).data@.len() && 0 <= j < final(self).authors@.len() && !(b
                        == idx && j == a) ==> cell(*final(self), b, j) == (if b < oldlen {
                        cell(*old(self), b, j)
                    } else {
                        Seq::<usize>::empty()
                    })
                &&& cell(*final(self), idx as int, a) == (if idx < oldlen {
                    cell(*old(self), idx as int, a)
                } else {
                    Seq::<usize>::empty()
                }).push(quantity)
            },
    {
        proof {
            lemma_find_author_properties(names(self.authors@), author@);
        }
        let mut author_index: usize = 0;
        let mut found = false;
        loop
            invariant
                0 <= author_index <= self.authors@.len(),
                !found ==> forall|j: int|
                    0 <= j < author_index ==> names(self.authors@)[j] != author@,
                found ==> author_index < self.authors@.len() && names(self.authors@)[
                    author_index as int] == author@ && (forall|j: int|
                    0 <= j < author_index ==> names(self.authors@)[j] != author@),
            ensures
                found ==> author_index < self.authors@.len() && find_author(
                    names(self.authors@),
                    author@,
                ) == author_index as int,
                !found ==> find_author(names(self.authors@), author@) == -1,
            decreases self.authors@.len() - author_index + (if found {
                0int
            } else {
                1int
            }),
        {
            if found {
                proof {
                    lemma_find_author_at(names(self.authors@), author@, author_index as int);
                }
                break ;
            }
            if author_index >= self.authors.len() {
                proof {
                    lemma_find_author_properties(names(self.authors@), author@);
                }
                break ;
            }
            if str_eq(self.authors[author_index].as_str(), author) {
                found = true;
            } else {
                author_index = author_index + 1;
            }
        }
        if !found {
            return false;
        }
        let ghost old_self = *self;
        let ghost oldlen = self.data@.len() as int;
        if self.data.len() <= idx {
            while self.data.len() <= idx
                invariant
                    0 <= oldlen,
                    oldlen <= self.data@.len() <= idx + 1,
                    idx < usize::MAX,
                    self.authors == old_self.authors,
                    forall|b: int|
                        0 <= b < self.data@.len() ==> (#[trigger] self.data@[b])@.len()
                            == self.authors@.len(),
                    forall|b: int|
                        0 <= b < oldlen ==> self.data@[b] == old_self.data@[b],
                    forall|b: int, j: int|
                        oldlen <= b < self.data@.len() && 0 <= j < self.authors@.len()
                            ==> #[trigger] cell(*self, b, j) == Seq::<usize>::empty(),
                    self.labels == old_self.labels,
                    self.start_idx == old_self.start_idx,
                    self.width == old_self.width,
                    self.reducer == old_self.reducer,
                    self.label_style == old_self.label_style,
                decreases idx + 1 - self.data@.len(),
            {
                let mut row: Vec<Vec<usize>> = Vec::new();
                let mut k: usize = 0;
                while k < self.authors.len()
                    invariant
                        0 <= k <= self.authors@.len(),
                        row@.len() == k,
                        forall|j: int| 0 <= j < k ==> (#[trigger] row@[j])@ == Seq::<
                            usize,
                        >::empty(),
                    decreases self.authors@.len() - k,
                {
                    row.push(Vec::new());
                    k = k + 1;
                }
                let ghost prev = *self;
                let ghost rowg = row;
                self.data.push(row);
                proof {
                    assert(self.data@ == prev.data@.push(rowg));
                    assert(prev.data@.push(rowg).len() == prev.data@.len() + 1);
                    assert(self.data@.len() == prev.data@.len() + 1);
                    assert(self.data@.last() == rowg);
                    assert forall|b: int, j: int|
                        oldlen <= b < self.data@.len() && 0 <= j
                            < self.authors@.len() implies #[trigger] cell(*self, b, j) == Seq::<
                        usize,
                    >::empty() by {
                        if b < self.data@.len() - 1 {
                            assert(self.data@.len() == prev.data@.len() + 1);
                            assert(0 <= b < prev.data@.len());
                            vstd::seq::lemma_seq_push_index_different_alt(prev.data@, rowg, b);
                            assert(self.data@[b] == prev.data@[b]);
                            assert(cell(prev, b, j) == Seq::<usize>::empty());
                        } else {
                            assert(self.data@[b] == rowg);
                        }
                    }
                }
            }
            while self.labels.len() < self.data.len()
                invariant
                    old_self.labels@.len() <= self.labels@.len() <= self.data@.len(),
                    self.data@.len() == idx + 1,
                    idx < usize::MAX,
                    0 <= oldlen <= idx + 1,
                    label_ok(self.label_style, idx as int),
                    style_wf(self.label_style),
                    forall|b: int|
                        0 <= b < old_self.labels@.len() ==> self.labels@[b] == old_self.labels@[b],
                    forall|b: int|
                        0 <= b < self.labels@.len() ==> (#[trigger] self.labels@[b])@ == label_spec(
                            self.label_style,
                            b,
                        ),
                    self.authors == old_self.authors,
                    forall|b: int|
                        0 <= b < self.data@.len() ==> (#[trigger] self.data@[b])@.len()
                            == self.authors@.len(),
                    forall|b: int| 0 <= b < oldlen ==> self.data@[b] == old_self.data@[b],
                    forall|b: int, j: int|
                        oldlen <= b < self.data@.len() && 0 <= j < self.authors@.len()
                            ==> #[trigger] cell(*self, b, j) == Seq::<usize>::empty(),
                    self.start_idx == old_self.start_idx,
                    self.width == old_self.width,
                    self.reducer == old_self.reducer,
                    self.label_style == old_self.label_style,
                    old_self.wf(),
                decreases self.data@.len() - self.labels@.len(),
            {
                proof {
                    lemma_label_ok_downward(
                        self.label_style,
                        self.labels@.len() as int,
                        idx as int,
                    );
                }
                let l = self.label_style.label_of(self.labels.len());
                let ghost prev = *self;
                self.labels.push(l);
                proof {
                    assert forall|b: int, j: int|
                        oldlen <= b < self.data@.len() && 0 <= j
                            < self.authors@.len() implies #[trigger] cell(*self, b, j) == Seq::<
                        usize,
                    >::empty() by {
                        assert(cell(prev, b, j) == Seq::<usize>::empty());
                    }
                }
            }
        }
        let ghost pre = *self;
        assert(idx < self.data@.len());
        assert(self.data@[idx as int]@.len() == self.authors@.len());
        let row = &mut self.data[idx];
        let cell_vec = &mut row[author_index];
        cell_vec.push(quantity);
        proof {
            let rowf = self.data@[idx as int];
            assert(self.data@ == pre.data@.update(idx as int, rowf));
            assert(rowf@ == pre.data@[idx as int]@.update(
                author_index as int,
                rowf@[author_index as int],
            ));
            assert(rowf@[author_index as int]@ == pre.data@[idx as int]@[author_index as int]@.push(
                quantity,
            ));
            assert forall|b: int, j: int|
                0 <= b < self.data@.len() && 0 <= j < self.authors@.len() && !(b == idx && j
                    == author_index) implies cell(*self, b, j) == cell(pre, b, j) by {
                if b == idx {
                    assert(self.data@[b] == rowf);
                    assert(rowf@[j] == pre.data@[idx as int]@[j]);
                } else {
                    assert(self.data@[b] == pre.data@[b]);
                }
            }
            assert(cell(*self, idx as int, author_index as int) == cell(
                pre,
                idx as int,
                author_index as int,
            ).push(quantity));
            let a = find_author(names(old(self).authors@), author@);
            assert(a == author_index as int);
            assert(self.authors == old(self).authors);
            assert(self.data@.len() == if idx + 1 > oldlen {
                idx + 1
            } else {
                oldlen
            });
            assert(cell(*self, idx as int, a) == (if idx < oldlen {
                cell(*old(self), idx as int, a)
            } else {
                Seq::<usize>::empty()
            }).push(quantity));
            assert forall|b: int, j: int|
                0 <= b < self.data@.len() && 0 <= j < self.authors@.len() && !(b == idx && j
                    == a) implies cell(*self, b, j) == (if b < oldlen {
                cell(*old(self), b, j)
            } else {
                Seq::<usize>::empty()
            }) by {
                assert(cell(*self, b, j) == cell(pre, b, j));
                if b < oldlen {
                    assert(pre.data@[b] == old(self).data@[b]);
                } else {
                    assert(cell(pre, b, j) == Seq::<usize>::empty());
                }
            }
        }
        true
    }
}

proof fn lemma_label_ok_downward(style: LabelStyle, j: int, idx: int)
    requires
        label_ok(style, idx),
        0 <= j <= idx,
    ensures
        label_ok(style, j),
{
    match style {
        LabelStyle::WeekOf { first_day } => {
            assert(first_day + 7 * j <= first_day + 7 * idx) by (nonlinear_arith)
                requires
                    j <= idx,
            ;
        },
        _ => {},
    }
}

} // verus!
