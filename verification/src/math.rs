//! The compressed-sparse-row (CSR) triple produced by the vectorizers.

use vstd::prelude::*;

verus! {

/// A sparse matrix in CSR form: row `r`'s nonzero entries are
/// `indices[indptr[r]..indptr[r+1]]` with values `data` at the same
/// positions.
#[derive(Debug)]
pub struct CSRArray {
    pub indices: Vec<usize>,
    pub indptr: Vec<usize>,
    pub data: Vec<i32>,
}

/// `s` is non-decreasing.
pub open spec fn sorted(s: Seq<usize>) -> bool {
    forall|i: int, j: int| 0 <= i <= j < s.len() ==> s[i] <= s[j]
}

/// `s` is strictly increasing.
pub open spec fn strictly_sorted(s: Seq<usize>) -> bool {
    forall|i: int, j: int| 0 <= i < j < s.len() ==> s[i] < s[j]
}

/// Sum of a sequence of counts.
pub open spec fn sum_of(s: Seq<i32>) -> int
    decreases s.len(),
{
    if s.len() == 0 {
        0
    } else {
        sum_of(s.drop_last()) + s.last()
    }
}

impl CSRArray {
    /// Number of rows the triple encodes.
    pub open spec fn spec_rows(&self) -> int {
        self.indptr@.len() - 1
    }

    /// The column ids of row `r`.
    pub open spec fn row_indices(&self, r: int) -> Seq<usize> {
        self.indices@.subrange(self.indptr@[r] as int, self.indptr@[r + 1] as int)
    }

    /// The values of row `r`.
    pub open spec fn row_data(&self, r: int) -> Seq<i32> {
        self.data@.subrange(self.indptr@[r] as int, self.indptr@[r + 1] as int)
    }

    /// Structural well-formedness: `indptr` starts at zero, never
    /// decreases, and ends at the common length of `indices` and `data`;
    /// within each row the column ids are strictly increasing and every
    /// stored count is positive.
    pub open spec fn wf(&self) -> bool {
        &&& self.indptr@.len() >= 1
        &&& self.indptr@[0] == 0
        &&& sorted(self.indptr@)
        &&& self.indptr@.last() == self.indices@.len()
        &&& self.indices@.len() == self.data@.len()
        &&& forall|r: int|
            0 <= r < self.spec_rows() ==> strictly_sorted(#[trigger] self.row_indices(r))
        &&& forall|r: int, k: int|
            0 <= r < self.spec_rows() && 0 <= k < self.row_data(r).len() ==> #[trigger] self.row_data(
                r,
            )[k] >= 1
    }

    /// An empty matrix with no rows yet: the single leading zero of
    /// `indptr`.
    pub fn new_empty() -> (r: CSRArray)
        ensures
            r.wf(),
            r.spec_rows() == 0,
            r.indices@.len() == 0,
            r.indptr@ =~= seq![0usize],
            r.data@.len() == 0,
    {
        let mut indptr: Vec<usize> = Vec::new();
        indptr.push(0);
        let r = CSRArray { indices: Vec::new(), indptr, data: Vec::new() };
        assert(r.indptr@ =~= seq![0usize]);
        r
    }

    /// Append one row to the matrix: its ids and values go at the end of
    /// `indices` and `data`, and `indptr` receives the new total. Earlier
    /// rows are untouched.
    pub fn push_row(&mut self, idx: &Vec<usize>, dat: &Vec<i32>)
        requires
            old(self).wf(),
            strictly_sorted(idx@),
            idx@.len() == dat@.len(),
            forall|k: int| 0 <= k < dat@.len() ==> dat@[k] >= 1,
        ensures
            final(self).wf(),
            final(self).spec_rows() == old(self).spec_rows() + 1,
            forall|r: int|
                0 <= r < old(self).spec_rows() ==> #[trigger] final(self).row_indices(r) == old(
                    self,
                ).row_indices(r) && final(self).row_data(r) == old(self).row_data(r),
            final(self).row_indices(old(self).spec_rows()) == idx@,
            final(self).row_data(old(self).spec_rows()) == dat@,
            final(self).indices@ == old(self).indices@ + idx@,
            final(self).data@ == old(self).data@ + dat@,
            final(self).indptr@ == old(self).indptr@.push(
                (old(self).indices@.len() + idx@.len()) as usize,
            ),
    {
        let start = self.indices.len();
        let mut k: usize = 0;
        while k < idx.len()
            invariant
                k <= idx@.len(),
                idx@.len() == dat@.len(),
                start == old(self).indices@.len(),
                self.indices@ =~= old(self).indices@ + idx@.take(k as int),
                self.data@ =~= old(self).data@ + dat@.take(k as int),
                self.indptr@ == old(self).indptr@,
            decreases idx@.len() - k,
        {
            self.indices.push(idx[k]);
            self.data.push(dat[k]);
            assert(idx@.take(k + 1) =~= idx@.take(k as int).push(idx@[k as int]));
            assert(dat@.take(k + 1) =~= dat@.take(k as int).push(dat@[k as int]));
            k += 1;
        }
        assert(idx@.take(idx@.len() as int) =~= idx@);
        assert(dat@.take(dat@.len() as int) =~= dat@);
        let total = self.indices.len();
        self.indptr.push(total);
        proof {
            let prev = old(self);
            let n = prev.spec_rows();
            assert(prev.indptr@.last() == prev.indices@.len());
            assert forall|r: int| 0 <= r < n implies #[trigger] self.row_indices(r)
                == prev.row_indices(r) && self.row_data(r) == prev.row_data(r) by {
                assert(prev.indptr@[r] <= prev.indptr@[r + 1] <= prev.indices@.len());
                assert(self.row_indices(r) =~= prev.row_indices(r));
                assert(self.row_data(r) =~= prev.row_data(r));
            }
            assert(self.row_indices(n) =~= idx@);
            assert(self.row_data(n) =~= dat@);
            assert(sorted(self.indptr@)) by {
                assert forall|i: int, j: int|
                    0 <= i <= j < self.indptr@.len() implies self.indptr@[i] <= self.indptr@[j] by {
                    if j < self.indptr@.len() - 1 {
                        assert(prev.indptr@[i] <= prev.indptr@[j]);
                    } else if i < self.indptr@.len() - 1 {
                        assert(prev.indptr@[i] <= prev.indptr@.last());
                    }
                }
            }
            assert forall|r: int| 0 <= r < self.spec_rows() implies strictly_sorted(
                #[trigger] self.row_indices(r),
            ) by {
                if r < n {
                    assert(self.row_indices(r) == prev.row_indices(r));
                } else {
                    assert(self.row_indices(r) == idx@);
                }
            }
            assert forall|r: int, k: int|
                0 <= r < self.spec_rows() && 0 <= k < self.row_data(r).len() implies #[trigger] self.row_data(
                r,
            )[k] >= 1 by {
                if r < n {
                    assert(self.row_data(r) == prev.row_data(r));
                } else {
                    assert(self.row_data(r) == dat@);
                }
            }
            assert(self.wf());
        }
    }
}

/// `sum_of` over a concatenation splits into the two parts.
pub proof fn lemma_sum_of_push(s: Seq<i32>, v: i32)
    ensures
        sum_of(s.push(v)) == sum_of(s) + v,
{
    assert(s.push(v).drop_last() =~= s);
    assert(s.push(v).last() == v);
}

} // verus!
