//! Count-based and hash-based document vectorization.
//!
//! Documents are tokenized, each token is resolved to a column id (a
//! vocabulary id or a hash bucket), and the per-document id lists are
//! folded into one CSR matrix: ids sorted within each row, duplicates
//! summed into a single entry, one row per document.

use vstd::multiset::Multiset;
use vstd::prelude::*;

use crate::chars::{chars_eq, chars_string, lex_lt, lex_lt_chars, str_chars, to_ascii_lowercase};
use crate::errors::EstimatorErr;
use crate::tokenize::Tokenizer;
use crate::math::{sorted, strictly_sorted, sum_of, CSRArray};

verus! {

broadcast use vstd::seq_lib::group_to_multiset_ensures;

/// Every pair of entries differs.
pub open spec fn distinct_seq(s: Seq<Seq<char>>) -> bool {
    forall|i: int, j: int| 0 <= i < j < s.len() ==> s[i] != s[j]
}

/// Strictly increasing in the lexicographic order of `lex_lt`.
pub open spec fn lex_sorted(s: Seq<Seq<char>>) -> bool {
    forall|i: int, j: int| 0 <= i < j < s.len() ==> lex_lt(s[i], s[j])
}

/// How many times token `t` occurs in the document `doc`.
pub open spec fn tok_count(doc: Seq<Seq<char>>, t: Seq<char>) -> nat {
    doc.to_multiset().count(t)
}

/// The mapping from token strings to column ids used by the count
/// vectorizer: entry `i` of `tokens` is the token with id `i`.
#[derive(Debug, Clone)]
pub struct Vocabulary {
    tokens: Vec<Vec<char>>,
}

impl View for Vocabulary {
    type V = Seq<Seq<char>>;

    closed spec fn view(&self) -> Seq<Seq<char>> {
        self.tokens.deep_view()
    }
}

impl Vocabulary {
    /// Ids are usable as column ids only when no token appears twice.
    pub open spec fn wf(&self) -> bool {
        distinct_seq(self@)
    }

    /// An empty vocabulary.
    pub fn new() -> (r: Vocabulary)
        ensures
            r@ =~= Seq::<Seq<char>>::empty(),
            r.wf(),
    {
        Vocabulary { tokens: Vec::new() }
    }

    /// Number of known tokens.
    pub fn len(&self) -> (r: usize)
        ensures
            r == self@.len(),
    {
        self.tokens.len()
    }

    /// The id of `tok`, or `None` when the token is unknown.
    pub fn get_id(&self, tok: &Vec<char>) -> (r: Option<usize>)
        ensures
            match r {
                Some(i) => i < self@.len() && self@[i as int] == tok@,
                None => !self@.contains(tok@),
            },
    {
        let mut i: usize = 0;
        while i < self.tokens.len()
            invariant
                i <= self@.len(),
                self@.len() == self.tokens@.len(),
                forall|j: int| 0 <= j < i ==> self@[j] != tok@,
            decreases self@.len() - i,
        {
            assert(self@[i as int] == self.tokens@[i as int]@);
            if chars_eq(&self.tokens[i], tok) {
                return Some(i);
            }
            i += 1;
        }
        assert(forall|j: int| 0 <= j < self@.len() ==> self@[j] != tok@);
        None
    }

    /// Append a token that is not yet present; its id is the previous
    /// length.
    pub fn push_token(&mut self, tok: Vec<char>)
        requires
            old(self).wf(),
            !old(self)@.contains(tok@),
        ensures
            final(self)@ =~= old(self)@.push(tok@),
            final(self).wf(),
    {
        self.tokens.push(tok);
        proof {
            assert(self.tokens@ =~= old(self).tokens@.push(tok));
            assert(self@ =~~= old(self)@.push(tok@));
        }
    }

    /// The token with id `i`, as a string.
    pub fn token_at(&self, i: usize) -> (r: String)
        requires
            i < self@.len(),
        ensures
            r@ == self@[i as int],
    {
        chars_string(&self.tokens[i])
    }

    /// Every (token, id) pair, in id order.
    pub fn entries(&self) -> (r: Vec<(String, usize)>)
        ensures
            r@.len() == self@.len(),
            forall|i: int|
                0 <= i < r@.len() ==> (#[trigger] r@[i]).0@ == self@[i] && r@[i].1 == i,
    {
        let mut out: Vec<(String, usize)> = Vec::new();
        let mut i: usize = 0;
        while i < self.tokens.len()
            invariant
                i <= self.tokens@.len(),
                self@.len() == self.tokens@.len(),
                out@.len() == i,
                forall|j: int|
                    0 <= j < i ==> (#[trigger] out@[j]).0@ == self@[j] && out@[j].1 == j,
            decreases self.tokens@.len() - i,
        {
            let s = chars_string(&self.tokens[i]);
            out.push((s, i));
            i += 1;
        }
        out
    }
}

/// Sort a list of column ids into non-decreasing order, keeping the
/// multiset of values.
pub(crate) fn sort_ids(v: &Vec<usize>) -> (r: Vec<usize>)
    ensures
        sorted(r@),
        r@.to_multiset() == v@.to_multiset(),
        r@.len() == v@.len(),
{
    let mut out: Vec<usize> = Vec::new();
    let mut i: usize = 0;
    while i < v.len()
        invariant
            i <= v@.len(),
            sorted(out@),
            out@.to_multiset() =~= v@.take(i as int).to_multiset(),
            out@.len() == i,
        decreases v@.len() - i,
    {
        let x = v[i];
        let mut p: usize = out.len();
        while p > 0 && out[p - 1] > x
            invariant
                p <= out@.len(),
                forall|q: int| p <= q < out@.len() ==> out@[q] > x,
            decreases p,
        {
            p -= 1;
        }
        let ghost prev = out@;
        out.insert(p, x);
        proof {
            assert(out@ == prev.insert(p as int, x));
            assert(sorted(out@)) by {
                assert forall|a: int, b: int| 0 <= a <= b < out@.len() implies out@[a] <= out@[b] by {
                    if a < p && b >= p {
                        if b > p {
                            assert(out@[b] == prev[b - 1]);
                        }
                        assert(out@[a] == prev[a]);
                        assert(prev[p - 1] <= x);
                    }
                }
            }
            assert(v@.take(i + 1) =~= v@.take(i as int).push(x));
            assert(out@.to_multiset() =~= prev.to_multiset().insert(x));
        }
        i += 1;
    }
    assert(v@.take(v@.len() as int) =~= v@);
    out
}

/// Sum maximal runs of equal ids in a sorted id list into `(id, count)`
/// pairs: the distinct ids in increasing order, each with its
/// multiplicity.
pub(crate) fn dedup_counts(ids: &Vec<usize>) -> (r: (Vec<usize>, Vec<i32>))
    requires
        sorted(ids@),
        ids@.len() <= 0x7fff_ffff,
    ensures
        strictly_sorted(r.0@),
        r.0@.len() == r.1@.len(),
        forall|v: usize| r.0@.contains(v) <==> ids@.contains(v),
        forall|k: int|
            0 <= k < r.0@.len() ==> (#[trigger] r.1@[k]) as int == ids@.to_multiset().count(
                r.0@[k],
            ),
        forall|k: int| 0 <= k < r.1@.len() ==> r.1@[k] >= 1,
        sum_of(r.1@) == ids@.len(),
{
    let mut out_idx: Vec<usize> = Vec::new();
    let mut out_dat: Vec<i32> = Vec::new();
    let mut i: usize = 0;
    while i < ids.len()
        invariant
            sorted(ids@),
            ids@.len() <= 0x7fff_ffff,
            i <= ids@.len(),
            out_idx@.len() == out_dat@.len(),
            strictly_sorted(out_idx@),
            i < ids@.len() ==> forall|k: int| 0 <= k < out_idx@.len() ==> out_idx@[k] < ids@[i as int],
            forall|k: int|
                0 <= k < out_idx@.len() ==> (#[trigger] out_dat@[k]) as int == ids@.take(
                    i as int,
                ).to_multiset().count(out_idx@[k]),
            forall|w: usize|
                !out_idx@.contains(w) ==> ids@.take(i as int).to_multiset().count(w) == 0,
            forall|k: int| 0 <= k < out_dat@.len() ==> out_dat@[k] >= 1,
            sum_of(out_dat@) == i,
        decreases ids@.len() - i,
    {
        let v = ids[i];
        let mut j: usize = i + 1;
        while j < ids.len() && ids[j] == v
            invariant
                i < j <= ids@.len(),
                v == ids@[i as int],
                forall|t: int| i <= t < j ==> ids@[t] == v,
            decreases ids@.len() - j,
        {
            j += 1;
        }
        proof {
            lemma_run_counts(ids@, i as int, j as int, v);
            assert(!out_idx@.contains(v)) by {
                assert(forall|k: int| 0 <= k < out_idx@.len() ==> out_idx@[k] != v);
            }
            assert(ids@.take(i as int).to_multiset().count(v) == 0);
        }
        let ghost old_idx = out_idx@;
        let ghost old_dat = out_dat@;
        out_idx.push(v);
        out_dat.push((j - i) as i32);
        proof {
            crate::math::lemma_sum_of_push(old_dat, (j - i) as i32);
            assert forall|k: int| 0 <= k < out_idx@.len() implies (#[trigger] out_dat@[k]) as int
                == ids@.take(j as int).to_multiset().count(out_idx@[k]) by {
                if k < old_idx.len() {
                    assert(out_idx@[k] == old_idx[k] && out_dat@[k] == old_dat[k]);
                    assert(old_idx[k] != v);
                }
            }
            assert forall|w: usize| !out_idx@.contains(w) implies ids@.take(
                j as int,
            ).to_multiset().count(w) == 0 by {
                assert(out_idx@[out_idx@.len() - 1] == v);
                if old_idx.contains(w) {
                    let k = choose|k: int| 0 <= k < old_idx.len() && old_idx[k] == w;
                    assert(out_idx@[k] == w);
                }
                assert(!old_idx.contains(w) && w != v);
            }
            if j < ids@.len() {
                assert forall|k: int| 0 <= k < out_idx@.len() implies out_idx@[k] < ids@[j as int] by {
                    assert(ids@[j as int] >= ids@[i as int]);
                    assert(ids@[j as int] != v);
                    if k < old_idx.len() {
                        assert(old_idx[k] < v);
                    }
                }
            }
        }
        i = j;
    }
    assert(ids@.take(ids@.len() as int) =~= ids@);
    proof {
        assert forall|v: usize| out_idx@.contains(v) implies ids@.contains(v) by {
            let k = choose|k: int| 0 <= k < out_idx@.len() && out_idx@[k] == v;
            assert(out_dat@[k] >= 1);
        }
        assert forall|v: usize| ids@.contains(v) implies out_idx@.contains(v) by {
            assert(ids@.to_multiset().count(v) > 0);
        }
    }
    (out_idx, out_dat)
}

/// What a correct count-vectorizer row for document `doc` under `vocab`
/// looks like: strictly ascending column ids, exactly the ids of vocabulary
/// tokens present in the document, each with its occurrence count, the
/// counts summing to the number of in-vocabulary tokens.
pub open spec fn count_row_matches(
    idx: Seq<usize>,
    dat: Seq<i32>,
    doc: Seq<Seq<char>>,
    vocab: Seq<Seq<char>>,
) -> bool {
    &&& strictly_sorted(idx)
    &&& idx.len() == dat.len()
    &&& forall|j: usize|
        #[trigger] idx.contains(j) <==> (j < vocab.len() && tok_count(doc, vocab[j as int]) > 0)
    &&& forall|k: int|
        0 <= k < idx.len() ==> (#[trigger] dat[k]) as int == tok_count(doc, vocab[idx[k] as int])
    &&& sum_of(dat) == doc.filter(|t: Seq<char>| vocab.contains(t)).len()
}

/// The column ids of the in-vocabulary tokens of `doc`, in document
/// order; out-of-vocabulary tokens contribute nothing.
fn doc_ids(doc: &Vec<Vec<char>>, vocab: &Vocabulary) -> (r: Vec<usize>)
    requires
        vocab.wf(),
    ensures
        forall|j: usize|
            #[trigger] r@.to_multiset().count(j) == if j < vocab@.len() {
                tok_count(doc.deep_view(), vocab@[j as int])
            } else {
                0
            },
        r@.len() == doc.deep_view().filter(|t: Seq<char>| vocab@.contains(t)).len(),
{
    let ghost dv = doc.deep_view();
    let ghost pred = |t: Seq<char>| vocab@.contains(t);
    let mut r: Vec<usize> = Vec::new();
    let mut i: usize = 0;
    proof {
        assert(dv.take(0) =~= Seq::<Seq<char>>::empty());
        assert(dv.take(0).filter(pred) =~= Seq::<Seq<char>>::empty()) by {
            reveal(Seq::filter);
        }
    }
    while i < doc.len()
        invariant
            vocab.wf(),
            i <= doc@.len(),
            dv == doc.deep_view(),
            pred == |t: Seq<char>| vocab@.contains(t),
            dv.len() == doc@.len(),
            forall|j: usize|
                #[trigger] r@.to_multiset().count(j) == if j < vocab@.len() {
                    tok_count(dv.take(i as int), vocab@[j as int])
                } else {
                    0
                },
            r@.len() == dv.take(i as int).filter(pred).len(),
        decreases doc@.len() - i,
    {
        let ghost tv = dv[i as int];
        assert(doc@[i as int].deep_view() == tv);
        assert(doc@[i as int]@ =~= tv);
        let id_opt = vocab.get_id(&doc[i]);
        let ghost old_r = r@;
        match id_opt {
            Some(id) => {
                r.push(id);
            },
            None => {},
        }
        proof {
            assert(dv.take(i + 1) =~= dv.take(i as int).push(tv));
            assert(dv.take(i + 1).filter(pred) == if pred(tv) {
                dv.take(i as int).filter(pred).push(tv)
            } else {
                dv.take(i as int).filter(pred)
            }) by {
                reveal(Seq::filter);
                assert(dv.take(i + 1).drop_last() =~= dv.take(i as int));
                assert(dv.take(i + 1).last() == tv);
            }
            match id_opt {
                Some(id) => {
                    assert(vocab@[id as int] == tv);
                    assert(pred(tv));
                    assert forall|j: usize| #[trigger] r@.to_multiset().count(j) == (if j
                        < vocab@.len() {
                        tok_count(dv.take(i + 1), vocab@[j as int])
                    } else {
                        0nat
                    }) by {
                        assert(r@ == old_r.push(id));
                        if j < vocab@.len() && j != id {
                            assert(vocab@[j as int] != tv);
                        }
                    }
                },
                None => {
                    assert(!pred(tv));
                    assert forall|j: usize| #[trigger] r@.to_multiset().count(j) == (if j
                        < vocab@.len() {
                        tok_count(dv.take(i + 1), vocab@[j as int])
                    } else {
                        0nat
                    }) by {
                        if j < vocab@.len() {
                            assert(vocab@.contains(vocab@[j as int]));
                            assert(vocab@[j as int] != tv);
                        }
                    }
                },
            }
        }
        i += 1;
    }
    assert(dv.take(dv.len() as int) =~= dv);
    r
}

/// Build the deduplicated, sorted row for one document's id list and
/// append it to the matrix.
fn append_id_row(m: &mut CSRArray, ids: &Vec<usize>)
    requires
        old(m).wf(),
        ids@.len() <= 0x7fff_ffff,
    ensures
        final(m).wf(),
        final(m).spec_rows() == old(m).spec_rows() + 1,
        forall|r: int|
            0 <= r < old(m).spec_rows() ==> #[trigger] final(m).row_indices(r) == old(
                m,
            ).row_indices(r) && final(m).row_data(r) == old(m).row_data(r),
        ({
            let idx = final(m).row_indices(old(m).spec_rows());
            let dat = final(m).row_data(old(m).spec_rows());
            &&& forall|v: usize| #[trigger] idx.contains(v) <==> ids@.contains(v)
            &&& forall|k: int|
                0 <= k < idx.len() ==> (#[trigger] dat[k]) as int == ids@.to_multiset().count(
                    idx[k],
                )
            &&& sum_of(dat) == ids@.len()
        }),
{
    let sorted_ids = sort_ids(ids);
    let (idx, dat) = dedup_counts(&sorted_ids);
    let ghost n = m.spec_rows();
    m.push_row(&idx, &dat);
    proof {
        assert(m.row_indices(n) == idx@ && m.row_data(n) == dat@);
        assert(forall|v: usize|
            sorted_ids@.to_multiset().count(v) == ids@.to_multiset().count(v));
        assert forall|v: usize| #[trigger] idx@.contains(v) implies ids@.contains(v) by {
            assert(sorted_ids@.contains(v));
            assert(sorted_ids@.to_multiset().count(v) > 0);
            assert(ids@.to_multiset().count(v) > 0);
        }
        assert forall|v: usize| #[trigger] ids@.contains(v) implies idx@.contains(v) by {
            assert(ids@.to_multiset().count(v) > 0);
            assert(sorted_ids@.to_multiset().count(v) > 0);
            assert(sorted_ids@.contains(v));
        }
        assert forall|k: int| 0 <= k < idx@.len() implies (#[trigger] dat@[k]) as int
            == ids@.to_multiset().count(idx@[k]) by {
            assert(dat@[k] as int == sorted_ids@.to_multiset().count(idx@[k]));
        }
    }
}

/// Transform already-tokenized documents into a CSR count matrix under a
/// fixed vocabulary: one row per document, columns sorted, duplicate
/// tokens summed, out-of-vocabulary tokens dropped.
pub fn count_rows(docs: &Vec<Vec<Vec<char>>>, vocab: &Vocabulary) -> (r: CSRArray)
    requires
        vocab.wf(),
        forall|d: int| 0 <= d < docs@.len() ==> (#[trigger] docs@[d])@.len() <= 0x7fff_ffff,
    ensures
        r.wf(),
        r.spec_rows() == docs@.len(),
        forall|d: int|
            0 <= d < docs@.len() ==> count_row_matches(
                #[trigger] r.row_indices(d),
                r.row_data(d),
                docs@[d].deep_view(),
                vocab@,
            ),
{
    let mut m = CSRArray::new_empty();
    let mut d: usize = 0;
    while d < docs.len()
        invariant
            vocab.wf(),
            d <= docs@.len(),
            forall|e: int| 0 <= e < docs@.len() ==> (#[trigger] docs@[e])@.len() <= 0x7fff_ffff,
            m.wf(),
            m.spec_rows() == d,
            forall|e: int|
                0 <= e < d ==> count_row_matches(
                    #[trigger] m.row_indices(e),
                    m.row_data(e),
                    docs@[e].deep_view(),
                    vocab@,
                ),
        decreases docs@.len() - d,
    {
        let ids = doc_ids(&docs[d], vocab);
        assert(ids@.len() <= docs@[d as int].deep_view().len()) by {
            broadcast use vstd::seq_lib::group_filter_ensures;
        }
        append_id_row(&mut m, &ids);
        proof {
            let e = d as int;
            let idx = m.row_indices(e);
            let dat = m.row_data(e);
            let dv = docs@[e].deep_view();
            assert forall|j: usize| #[trigger] idx.contains(j) <==> (j < vocab@.len()
                && tok_count(dv, vocab@[j as int]) > 0) by {
                assert(idx.contains(j) <==> ids@.contains(j));
                assert(ids@.contains(j) <==> ids@.to_multiset().count(j) > 0);
            }
            assert forall|k: int| 0 <= k < idx.len() implies (#[trigger] dat[k]) as int
                == tok_count(dv, vocab@[idx[k] as int]) by {
                assert(idx.contains(idx[k]));
            }
            assert(count_row_matches(idx, dat, dv, vocab@));
        }
        d += 1;
    }
    m
}

/// Two strictly increasing id sequences with the same members are the
/// same sequence.
pub proof fn lemma_strictly_sorted_same_members(a: Seq<usize>, b: Seq<usize>)
    requires
        strictly_sorted(a),
        strictly_sorted(b),
        forall|v: usize| a.contains(v) <==> b.contains(v),
    ensures
        a == b,
    decreases a.len(),
{
    if a.len() == 0 {
        if b.len() > 0 {
            assert(b.contains(b[0]));
            assert(a.contains(b[0]));
        }
        assert(a =~= b);
    } else {
        assert(a.contains(a[0]));
        assert(b.contains(b[0]));
        let ka = choose|k: int| 0 <= k < b.len() && b[k] == a[0];
        let kb = choose|k: int| 0 <= k < a.len() && a[k] == b[0];
        assert(b[0] <= a[0]) by {
            if ka > 0 {
                assert(b[0] < b[ka]);
            }
        }
        assert(a[0] <= b[0]) by {
            if kb > 0 {
                assert(a[0] < a[kb]);
            }
        }
        let a1 = a.drop_first();
        let b1 = b.drop_first();
        assert(strictly_sorted(a1) && strictly_sorted(b1)) by {
            assert(forall|i: int, j: int|
                0 <= i < j < a1.len() ==> a1[i] == a[i + 1] && a1[j] == a[j + 1]);
            assert(forall|i: int, j: int|
                0 <= i < j < b1.len() ==> b1[i] == b[i + 1] && b1[j] == b[j + 1]);
        }
        assert forall|v: usize| a1.contains(v) <==> b1.contains(v) by {
            lemma_tail_membership(a, v);
            lemma_tail_membership(b, v);
        }
        lemma_strictly_sorted_same_members(a1, b1);
        assert(a =~= b) by {
            assert(forall|i: int| 1 <= i < a.len() ==> a[i] == a1[i - 1] && b[i] == b1[i - 1]);
        }
    }
}

/// In a strictly increasing sequence, the tail holds exactly the members
/// above the head.
proof fn lemma_tail_membership(a: Seq<usize>, v: usize)
    requires
        strictly_sorted(a),
        a.len() > 0,
    ensures
        a.drop_first().contains(v) <==> (a.contains(v) && v != a[0]),
{
    let a1 = a.drop_first();
    if a1.contains(v) {
        let k = choose|k: int| 0 <= k < a1.len() && a1[k] == v;
        assert(a[k + 1] == v);
        assert(a[0] < a[k + 1]);
    }
    if a.contains(v) && v != a[0] {
        let k = choose|k: int| 0 <= k < a.len() && a[k] == v;
        assert(k >= 1);
        assert(a1[k - 1] == v);
    }
}

/// A document and a vocabulary determine the row: any two rows that match
/// them are identical.
pub proof fn lemma_count_row_unique(
    i1: Seq<usize>,
    d1: Seq<i32>,
    i2: Seq<usize>,
    d2: Seq<i32>,
    doc: Seq<Seq<char>>,
    vocab: Seq<Seq<char>>,
)
    requires
        count_row_matches(i1, d1, doc, vocab),
        count_row_matches(i2, d2, doc, vocab),
    ensures
        i1 == i2,
        d1 == d2,
{
    assert forall|v: usize| i1.contains(v) <==> i2.contains(v) by {}
    lemma_strictly_sorted_same_members(i1, i2);
    assert(d1 =~= d2);
}

/// Two well-formed CSR matrices with the same rows are the same triple.
pub proof fn lemma_csr_eq_from_rows(m1: &CSRArray, m2: &CSRArray)
    requires
        m1.wf(),
        m2.wf(),
        m1.spec_rows() == m2.spec_rows(),
        forall|d: int|
            0 <= d < m1.spec_rows() ==> #[trigger] m1.row_indices(d) == m2.row_indices(d)
                && m1.row_data(d) == m2.row_data(d),
    ensures
        m1.indptr@ == m2.indptr@,
        m1.indices@ == m2.indices@,
        m1.data@ == m2.data@,
{
    lemma_csr_prefix_eq(m1, m2, m1.spec_rows());
    assert(m1.indptr@.take(m1.spec_rows() + 1) =~= m1.indptr@);
    assert(m2.indptr@.take(m2.spec_rows() + 1) =~= m2.indptr@);
    assert(m1.indptr@ =~= m2.indptr@);
    assert(m1.indptr@.last() == m1.indices@.len());
    assert(m1.indices@ =~= m1.indices@.subrange(0, m1.indptr@[m1.spec_rows()] as int));
    assert(m2.indices@ =~= m2.indices@.subrange(0, m2.indptr@[m2.spec_rows()] as int));
    assert(m1.data@ =~= m1.data@.subrange(0, m1.indptr@[m1.spec_rows()] as int));
    assert(m2.data@ =~= m2.data@.subrange(0, m2.indptr@[m2.spec_rows()] as int));
}

/// The first `d` rows of two matrices with equal row contents occupy
/// equal prefixes of the flat arrays.
proof fn lemma_csr_prefix_eq(m1: &CSRArray, m2: &CSRArray, d: int)
    requires
        m1.wf(),
        m2.wf(),
        m1.spec_rows() == m2.spec_rows(),
        0 <= d <= m1.spec_rows(),
        forall|e: int|
            0 <= e < m1.spec_rows() ==> #[trigger] m1.row_indices(e) == m2.row_indices(e)
                && m1.row_data(e) == m2.row_data(e),
    ensures
        m1.indptr@.take(d + 1) == m2.indptr@.take(d + 1),
        m1.indices@.subrange(0, m1.indptr@[d] as int) == m2.indices@.subrange(
            0,
            m2.indptr@[d] as int,
        ),
        m1.data@.subrange(0, m1.indptr@[d] as int) == m2.data@.subrange(0, m2.indptr@[d] as int),
    decreases d,
{
    if d == 0 {
        assert(m1.indptr@.take(1) =~= m2.indptr@.take(1));
        assert(m1.indices@.subrange(0, 0) =~= m2.indices@.subrange(0, 0));
        assert(m1.data@.subrange(0, 0) =~= m2.data@.subrange(0, 0));
    } else {
        lemma_csr_prefix_eq(m1, m2, d - 1);
        assert(m1.indptr@.take(d)[d - 1] == m2.indptr@.take(d)[d - 1]);
        let p = m1.indptr@[d - 1] as int;
        assert(m2.indptr@[d - 1] as int == p);
        assert(m1.row_indices(d - 1) == m2.row_indices(d - 1));
        assert(m1.row_indices(d - 1).len() == m2.row_indices(d - 1).len());
        assert(m1.indptr@[d] as int - p == m1.row_indices(d - 1).len());
        assert(m2.indptr@[d] as int - p == m2.row_indices(d - 1).len());
        assert(m1.indptr@[d] == m2.indptr@[d]);
        assert(m1.indptr@.take(d + 1) =~= m2.indptr@.take(d + 1));
        let q = m1.indptr@[d] as int;
        assert forall|k: int| 0 <= k < q implies m1.indices@[k] == m2.indices@[k]
            && m1.data@[k] == m2.data@[k] by {
            if k < p {
                assert(m1.indices@.subrange(0, p)[k] == m2.indices@.subrange(0, p)[k]);
                assert(m1.data@.subrange(0, p)[k] == m2.data@.subrange(0, p)[k]);
            } else {
                assert(m1.row_indices(d - 1)[k - p] == m2.row_indices(d - 1)[k - p]);
                assert(m1.row_data(d - 1)[k - p] == m2.row_data(d - 1)[k - p]);
            }
        }
        assert(m1.indices@.subrange(0, q) =~= m2.indices@.subrange(0, q));
        assert(m1.data@.subrange(0, q) =~= m2.data@.subrange(0, q));
    }
}

/// Whether `tok` occurs in the token list `ts`.
fn contains_token(ts: &Vec<Vec<char>>, tok: &Vec<char>) -> (r: bool)
    ensures
        r == ts.deep_view().contains(tok@),
{
    let ghost dv = ts.deep_view();
    let mut i: usize = 0;
    while i < ts.len()
        invariant
            i <= ts@.len(),
            dv == ts.deep_view(),
            dv.len() == ts@.len(),
            forall|j: int| 0 <= j < i ==> dv[j] != tok@,
        decreases ts@.len() - i,
    {
        assert(ts@[i as int]@ =~= dv[i as int]);
        if chars_eq(&ts[i], tok) {
            assert(dv.contains(tok@));
            return true;
        }
        i += 1;
    }
    assert(forall|j: int| 0 <= j < dv.len() ==> dv[j] != tok@);
    false
}

/// Add every token of `doc` that `acc` does not yet hold; the set of
/// tokens grows by exactly the document's tokens.
/// Membership in a sequence extended by one element.
proof fn lemma_push_contains(s: Seq<Seq<char>>, x: Seq<char>, t: Seq<char>)
    ensures
        s.push(x).contains(t) <==> (s.contains(t) || t == x),
{
    if s.push(x).contains(t) {
        let k = choose|k: int| 0 <= k < s.push(x).len() && #[trigger] s.push(x)[k] == t;
        if k < s.len() {
            assert(s[k] == t);
        }
    }
    if s.contains(t) {
        let k = choose|k: int| 0 <= k < s.len() && #[trigger] s[k] == t;
        assert(s.push(x)[k] == t);
    }
    if t == x {
        assert(s.push(x)[s.len() as int] == t);
    }
}

/// Membership in a prefix lengthened by one position.
proof fn lemma_take_succ_contains(s: Seq<Seq<char>>, i: int, t: Seq<char>)
    requires
        0 <= i < s.len(),
    ensures
        s.take(i + 1).contains(t) <==> (s.take(i).contains(t) || t == s[i]),
{
    assert(s.take(i + 1) =~= s.take(i).push(s[i]));
    lemma_push_contains(s.take(i), s[i], t);
}

/// Membership in a sequence with one element inserted.
proof fn lemma_insert_contains(s: Seq<Seq<char>>, p: int, x: Seq<char>, t: Seq<char>)
    requires
        0 <= p <= s.len(),
    ensures
        s.insert(p, x).contains(t) <==> (s.contains(t) || t == x),
{
    let n = s.insert(p, x);
    if n.contains(t) {
        let k = choose|k: int| 0 <= k < n.len() && #[trigger] n[k] == t;
        if k < p {
            assert(s[k] == t);
        } else if k > p {
            assert(s[k - 1] == t);
        }
    }
    if s.contains(t) {
        let k = choose|k: int| 0 <= k < s.len() && #[trigger] s[k] == t;
        if k < p {
            assert(n[k] == t);
        } else {
            assert(n[k + 1] == t);
        }
    }
    if t == x {
        assert(n[p] == t);
    }
}

/// Add `tok` to `acc` unless it is already present.
fn push_if_absent(acc: &mut Vec<Vec<char>>, tok: &Vec<char>)
    requires
        distinct_seq(old(acc).deep_view()),
    ensures
        distinct_seq(final(acc).deep_view()),
        forall|t: Seq<char>| #![trigger final(acc).deep_view().contains(t)]
            final(acc).deep_view().contains(t) <==> (old(acc).deep_view().contains(t) || t
                == tok@),
{
    let ghost prev = acc.deep_view();
    let present = contains_token(acc, tok);
    if !present {
        let t = crate::chars::clone_chars_vec(tok);
        acc.push(t);
        proof {
            assert(acc.deep_view() =~~= prev.push(tok@));
            assert(distinct_seq(acc.deep_view())) by {
                assert(forall|k: int| 0 <= k < prev.len() ==> acc.deep_view()[k] == prev[k]);
                assert(acc.deep_view().last() == tok@);
            }
            assert forall|t: Seq<char>|
                acc.deep_view().contains(t) <==> (prev.contains(t) || t == tok@) by {
                lemma_push_contains(prev, tok@, t);
            }
        }
    } else {
        proof {
            assert(acc.deep_view() == prev);
            assert(prev.contains(tok@));
        }
    }
}

/// Add every token of `add` that `acc` does not yet hold; afterwards the
/// members of `acc` are its old members united with the tokens of `add`.
fn merge_tokens(acc: &mut Vec<Vec<char>>, add: &Vec<Vec<char>>)
    requires
        distinct_seq(old(acc).deep_view()),
    ensures
        distinct_seq(final(acc).deep_view()),
        forall|t: Seq<char>| #![trigger final(acc).deep_view().contains(t)]
            final(acc).deep_view().contains(t) <==> (old(acc).deep_view().contains(t)
                || add.deep_view().contains(t)),
{
    let ghost dv = add.deep_view();
    let mut i: usize = 0;
    while i < add.len()
        invariant
            i <= add@.len(),
            dv == add.deep_view(),
            dv.len() == add@.len(),
            distinct_seq(acc.deep_view()),
            forall|t: Seq<char>| #![trigger acc.deep_view().contains(t)]
                acc.deep_view().contains(t) <==> (old(acc).deep_view().contains(t) || dv.take(
                    i as int,
                ).contains(t)),
        decreases add@.len() - i,
    {
        assert(add@[i as int]@ =~= dv[i as int]);
        push_if_absent(acc, &add[i]);
        proof {
            assert forall|t: Seq<char>| #![trigger acc.deep_view().contains(t)]
                acc.deep_view().contains(t) <==> (old(acc).deep_view().contains(t) || dv.take(
                    i + 1,
                ).contains(t)) by {
                lemma_take_succ_contains(dv, i as int, t);
            }
        }
        i += 1;
    }
    assert(dv.take(dv.len() as int) =~= dv);
}

/// Order a list of distinct tokens lexicographically.
fn sort_tokens(v: &Vec<Vec<char>>) -> (r: Vec<Vec<char>>)
    requires
        distinct_seq(v.deep_view()),
    ensures
        r.deep_view().len() == v.deep_view().len(),
        lex_sorted(r.deep_view()),
        forall|t: Seq<char>| r.deep_view().contains(t) <==> v.deep_view().contains(t),
{
    let ghost dv = v.deep_view();
    let mut out: Vec<Vec<char>> = Vec::new();
    let mut i: usize = 0;
    while i < v.len()
        invariant
            i <= v@.len(),
            dv == v.deep_view(),
            dv.len() == v@.len(),
            distinct_seq(dv),
            out.deep_view().len() == i,
            lex_sorted(out.deep_view()),
            forall|t: Seq<char>|
                out.deep_view().contains(t) <==> dv.take(i as int).contains(t),
        decreases v@.len() - i,
    {
        let ghost odv = out.deep_view();
        let ghost tv = dv[i as int];
        assert(v@[i as int]@ =~= tv);
        proof {
            assert(!dv.take(i as int).contains(tv)) by {
                if dv.take(i as int).contains(tv) {
                    let k = choose|k: int|
                        0 <= k < i && dv.take(i as int)[k] == tv;
                    assert(dv[k] == dv[i as int]);
                }
            }
            assert(!odv.contains(tv));
        }
        let x = crate::chars::clone_chars_vec(&v[i]);
        let mut p: usize = out.len();
        while p > 0 && lex_lt_chars(&x, &out[p - 1])
            invariant
                p <= out@.len(),
                odv == out.deep_view(),
                odv.len() == out@.len(),
                x@ == tv,
                forall|q: int| p <= q < odv.len() ==> lex_lt(tv, odv[q]),
            decreases p,
        {
            assert(out@[p - 1]@ =~= odv[p - 1]);
            p -= 1;
        }
        proof {
            if p > 0 {
                assert(out@[p - 1]@ =~= odv[p - 1]);
                assert(!lex_lt(tv, odv[p - 1]));
                assert(odv[p - 1] != tv);
                crate::chars::lemma_lex_lt_total(tv, odv[p - 1]);
                assert(lex_lt(odv[p - 1], tv));
            }
        }
        out.insert(p, x);
        proof {
            assert(out.deep_view() =~~= odv.insert(p as int, tv));
            let ndv = out.deep_view();
            assert(lex_sorted(ndv)) by {
                assert forall|a: int, b: int| 0 <= a < b < ndv.len() implies lex_lt(
                    ndv[a],
                    ndv[b],
                ) by {
                    if b < p {
                        assert(ndv[a] == odv[a] && ndv[b] == odv[b]);
                    } else if a > p {
                        assert(ndv[a] == odv[a - 1] && ndv[b] == odv[b - 1]);
                    } else if a < p && b == p {
                        assert(ndv[a] == odv[a]);
                        if a < p - 1 {
                            crate::chars::lemma_lex_lt_trans(odv[a], odv[p - 1], tv);
                        }
                    } else if a == p && b > p {
                        assert(ndv[b] == odv[b - 1]);
                    } else if a < p && b > p {
                        assert(ndv[a] == odv[a] && ndv[b] == odv[b - 1]);
                    }
                }
            }
            assert forall|t: Seq<char>| ndv.contains(t) <==> dv.take(i + 1).contains(t) by {
                lemma_insert_contains(odv, p as int, tv, t);
                lemma_take_succ_contains(dv, i as int, t);
            }
        }
        i += 1;
    }
    assert(dv.take(dv.len() as int) =~= dv);
    out
}

impl Vocabulary {
    /// A vocabulary whose id `i` is position `i` of the given token list.
    pub fn from_tokens(tokens: Vec<Vec<char>>) -> (r: Vocabulary)
        requires
            distinct_seq(tokens.deep_view()),
        ensures
            r@ == tokens.deep_view(),
            r.wf(),
    {
        Vocabulary { tokens }
    }
}

/// What `fit` promises of the vocabulary it builds: lexicographically
/// ordered distinct ids, holding exactly the tokens that occur somewhere
/// in the corpus.
pub open spec fn fit_post(vocab: Seq<Seq<char>>, docs: Seq<Vec<Vec<char>>>) -> bool {
    &&& lex_sorted(vocab)
    &&& forall|t: Seq<char>|
        #[trigger] vocab.contains(t) <==> exists|d: int|
            0 <= d < docs.len() && (#[trigger] docs[d]).deep_view().contains(t)
}

/// A lexicographically sorted sequence has no repeated entries.
pub proof fn lemma_lex_sorted_distinct(s: Seq<Seq<char>>)
    requires
        lex_sorted(s),
    ensures
        distinct_seq(s),
{
    assert forall|i: int, j: int| 0 <= i < j < s.len() implies s[i] != s[j] by {
        crate::chars::lemma_lex_lt_total(s[i], s[j]);
    }
}

/// Two lexicographically sorted token sequences with the same members are
/// the same sequence. This is why the vocabulary is deterministic: any
/// build order ends in the one sorted arrangement.
pub proof fn lemma_lex_sorted_same_members(a: Seq<Seq<char>>, b: Seq<Seq<char>>)
    requires
        lex_sorted(a),
        lex_sorted(b),
        forall|t: Seq<char>| a.contains(t) <==> b.contains(t),
    ensures
        a == b,
    decreases a.len(),
{
    if a.len() == 0 {
        if b.len() > 0 {
            assert(b.contains(b[0]));
            assert(a.contains(b[0]));
        }
        assert(a =~= b);
    } else {
        assert(a.contains(a[0]));
        assert(b.contains(b[0]));
        let ka = choose|k: int| 0 <= k < b.len() && b[k] == a[0];
        let kb = choose|k: int| 0 <= k < a.len() && a[k] == b[0];
        assert(a[0] == b[0]) by {
            if ka > 0 {
                assert(lex_lt(b[0], a[0]));
            }
            if kb > 0 {
                assert(lex_lt(a[0], b[0]));
            }
            crate::chars::lemma_lex_lt_total(a[0], b[0]);
        }
        let a1 = a.drop_first();
        let b1 = b.drop_first();
        assert(lex_sorted(a1) && lex_sorted(b1)) by {
            assert(forall|i: int, j: int|
                0 <= i < j < a1.len() ==> a1[i] == a[i + 1] && a1[j] == a[j + 1]);
            assert(forall|i: int, j: int|
                0 <= i < j < b1.len() ==> b1[i] == b[i + 1] && b1[j] == b[j + 1]);
        }
        assert forall|t: Seq<char>| a1.contains(t) <==> b1.contains(t) by {
            lemma_lex_tail_membership(a, t);
            lemma_lex_tail_membership(b, t);
        }
        lemma_lex_sorted_same_members(a1, b1);
        assert(a =~= b) by {
            assert(forall|i: int| 1 <= i < a.len() ==> a[i] == a1[i - 1] && b[i] == b1[i - 1]);
        }
    }
}

/// In a lexicographically sorted sequence, the tail holds exactly the
/// members other than the head.
proof fn lemma_lex_tail_membership(a: Seq<Seq<char>>, t: Seq<char>)
    requires
        lex_sorted(a),
        a.len() > 0,
    ensures
        a.drop_first().contains(t) <==> (a.contains(t) && t != a[0]),
{
    let a1 = a.drop_first();
    if a1.contains(t) {
        let k = choose|k: int| 0 <= k < a1.len() && a1[k] == t;
        assert(a[k + 1] == t);
        assert(lex_lt(a[0], a[k + 1]));
        crate::chars::lemma_lex_lt_total(a[0], a[k + 1]);
    }
    if a.contains(t) && t != a[0] {
        let k = choose|k: int| 0 <= k < a.len() && a[k] == t;
        assert(k >= 1);
        assert(a1[k - 1] == t);
    }
}

/// Learn the vocabulary of a corpus: the lexicographically ordered list
/// of its distinct tokens, numbered from zero. The corpus is walked in
/// chunks of `chunk_size` documents, each chunk's token set collected
/// independently and merged in order; the outcome is the same for every
/// chunk size.
pub fn fit_vocab(docs: &Vec<Vec<Vec<char>>>, chunk_size: usize) -> (r: Vocabulary)
    requires
        chunk_size >= 1,
    ensures
        r.wf(),
        fit_post(r@, docs@),
{
    let mut acc: Vec<Vec<char>> = Vec::new();
    let mut c: usize = 0;
    while c < docs.len()
        invariant
            chunk_size >= 1,
            c <= docs@.len(),
            distinct_seq(acc.deep_view()),
            forall|t: Seq<char>| #![trigger acc.deep_view().contains(t)]
                acc.deep_view().contains(t) <==> exists|d: int|
                    0 <= d < c && (#[trigger] docs@[d]).deep_view().contains(t),
        decreases docs@.len() - c,
    {
        let hi = if docs.len() - c < chunk_size {
            docs.len()
        } else {
            c + chunk_size
        };
        let mut local: Vec<Vec<char>> = Vec::new();
        let mut d: usize = c;
        while d < hi
            invariant
                c <= d <= hi <= docs@.len(),
                distinct_seq(local.deep_view()),
                forall|t: Seq<char>| #![trigger local.deep_view().contains(t)]
                    local.deep_view().contains(t) <==> exists|e: int|
                        c <= e < d && (#[trigger] docs@[e]).deep_view().contains(t),
            decreases hi - d,
        {
            let ghost before = local.deep_view();
            merge_tokens(&mut local, &docs[d]);
            proof {
                assert forall|t: Seq<char>| #![trigger local.deep_view().contains(t)]
                    local.deep_view().contains(t) implies exists|e: int|
                    c <= e < d + 1 && (#[trigger] docs@[e]).deep_view().contains(t) by {
                    if before.contains(t) {
                        let e = choose|e: int|
                            c <= e < d && (#[trigger] docs@[e]).deep_view().contains(t);
                        assert(docs@[e].deep_view().contains(t));
                    } else {
                        assert(docs@[d as int].deep_view().contains(t));
                    }
                }
                assert forall|t: Seq<char>| #![trigger local.deep_view().contains(t)]
                    (exists|e: int|
                    c <= e < d + 1 && (#[trigger] docs@[e]).deep_view().contains(t)) implies
                    local.deep_view().contains(t) by {
                    let e = choose|e: int|
                        c <= e < d + 1 && (#[trigger] docs@[e]).deep_view().contains(t);
                    if e < d {
                        assert(before.contains(t));
                    } else {
                        assert(docs@[d as int].deep_view().contains(t));
                    }
                }
            }
            d += 1;
        }
        let ghost prev_acc = acc.deep_view();
        merge_tokens(&mut acc, &local);
        proof {
            assert(d == hi);
            assert forall|t: Seq<char>| #![trigger acc.deep_view().contains(t)]
                acc.deep_view().contains(t) implies exists|e: int|
                0 <= e < hi && (#[trigger] docs@[e]).deep_view().contains(t) by {
                if prev_acc.contains(t) {
                    let e = choose|e: int|
                        0 <= e < c && (#[trigger] docs@[e]).deep_view().contains(t);
                    assert(docs@[e].deep_view().contains(t));
                } else {
                    assert(local.deep_view().contains(t));
                    let e = choose|e: int|
                        c <= e < d && (#[trigger] docs@[e]).deep_view().contains(t);
                    assert(docs@[e].deep_view().contains(t));
                }
            }
            assert forall|t: Seq<char>| #![trigger acc.deep_view().contains(t)]
                (exists|e: int|
                0 <= e < hi && (#[trigger] docs@[e]).deep_view().contains(t)) implies
                acc.deep_view().contains(t) by {
                let e = choose|e: int|
                    0 <= e < hi && (#[trigger] docs@[e]).deep_view().contains(t);
                if e < c {
                    assert(prev_acc.contains(t));
                } else {
                    assert(local.deep_view().contains(t));
                }
            }
        }
        c = hi;
    }
    let sorted_toks = sort_tokens(&acc);
    proof {
        lemma_lex_sorted_distinct(sorted_toks.deep_view());
    }
    let r = Vocabulary::from_tokens(sorted_toks);
    r
}

/// Counting a run of one repeated value: extending a prefix across the
/// run raises that value's multiplicity by the run length and no other.
proof fn lemma_run_counts(s: Seq<usize>, i: int, j: int, v: usize)
    requires
        0 <= i <= j <= s.len(),
        forall|t: int| i <= t < j ==> s[t] == v,
    ensures
        s.take(j).to_multiset().count(v) == s.take(i).to_multiset().count(v) + (j - i),
        forall|w: usize| w != v ==> s.take(j).to_multiset().count(w) == s.take(i).to_multiset().count(w),
    decreases j - i,
{
    if j > i {
        lemma_run_counts(s, i, j - 1, v);
        assert(s.take(j) =~= s.take(j - 1).push(s[j - 1]));
    }
}

/// Look up a token in a plain token list.
fn index_of_token(ts: &Vec<Vec<char>>, tok: &Vec<char>) -> (r: Option<usize>)
    ensures
        match r {
            Some(i) => i < ts.deep_view().len() && ts.deep_view()[i as int] == tok@,
            None => !ts.deep_view().contains(tok@),
        },
{
    let ghost dv = ts.deep_view();
    let mut i: usize = 0;
    while i < ts.len()
        invariant
            i <= ts@.len(),
            dv == ts.deep_view(),
            dv.len() == ts@.len(),
            forall|j: int| 0 <= j < i ==> dv[j] != tok@,
        decreases ts@.len() - i,
    {
        assert(ts@[i as int]@ =~= dv[i as int]);
        if chars_eq(&ts[i], tok) {
            return Some(i);
        }
        i += 1;
    }
    assert(forall|j: int| 0 <= j < dv.len() ==> dv[j] != tok@);
    None
}

/// Resolve one document against a growing first-seen token list: known
/// tokens keep their id, new tokens are appended and get the next id.
fn doc_ids_assign(doc: &Vec<Vec<char>>, ts: &mut Vec<Vec<char>>) -> (r: Vec<usize>)
    requires
        distinct_seq(old(ts).deep_view()),
    ensures
        distinct_seq(final(ts).deep_view()),
        old(ts).deep_view().is_prefix_of(final(ts).deep_view()),
        forall|t: Seq<char>| #![trigger final(ts).deep_view().contains(t)]
            final(ts).deep_view().contains(t) <==> (old(ts).deep_view().contains(t)
                || doc.deep_view().contains(t)),
        r@.len() == doc@.len(),
        forall|j: usize|
            #[trigger] r@.to_multiset().count(j) == if j < final(ts).deep_view().len() {
                tok_count(doc.deep_view(), final(ts).deep_view()[j as int])
            } else {
                0
            },
{
    let ghost dv = doc.deep_view();
    let mut r: Vec<usize> = Vec::new();
    let mut i: usize = 0;
    while i < doc.len()
        invariant
            i <= doc@.len(),
            dv == doc.deep_view(),
            dv.len() == doc@.len(),
            distinct_seq(ts.deep_view()),
            old(ts).deep_view().is_prefix_of(ts.deep_view()),
            forall|t: Seq<char>| #![trigger ts.deep_view().contains(t)]
                ts.deep_view().contains(t) <==> (old(ts).deep_view().contains(t) || dv.take(
                    i as int,
                ).contains(t)),
            r@.len() == i,
            forall|j: usize|
                #[trigger] r@.to_multiset().count(j) == if j < ts.deep_view().len() {
                    tok_count(dv.take(i as int), ts.deep_view()[j as int])
                } else {
                    0
                },
        decreases doc@.len() - i,
    {
        let ghost tv = dv[i as int];
        let ghost prev_ts = ts.deep_view();
        let ghost prev_r = r@;
        assert(doc@[i as int]@ =~= tv);
        let id_opt = index_of_token(ts, &doc[i]);
        match id_opt {
            Some(id) => {
                r.push(id);
                proof {
                    assert(dv.take(i + 1) =~= dv.take(i as int).push(tv));
                    assert(prev_ts[id as int] == tv);
                    assert forall|j: usize| #[trigger] r@.to_multiset().count(j) == (if j
                        < ts.deep_view().len() {
                        tok_count(dv.take(i + 1), ts.deep_view()[j as int])
                    } else {
                        0nat
                    }) by {
                        assert(r@ == prev_r.push(id));
                        if j < ts.deep_view().len() && j != id {
                            assert(ts.deep_view()[j as int] != tv);
                        }
                    }
                    assert forall|t: Seq<char>| #![trigger ts.deep_view().contains(t)]
                        ts.deep_view().contains(t) <==> (old(ts).deep_view().contains(t)
                            || dv.take(i + 1).contains(t)) by {
                        lemma_take_succ_contains(dv, i as int, t);
                        if t == tv {
                            assert(ts.deep_view().contains(tv));
                        }
                    }
                }
            },
            None => {
                let id = ts.len();
                let t = crate::chars::clone_chars_vec(&doc[i]);
                ts.push(t);
                r.push(id);
                proof {
                    assert(ts.deep_view() =~~= prev_ts.push(tv));
                    assert(dv.take(i + 1) =~= dv.take(i as int).push(tv));
                    assert(distinct_seq(ts.deep_view())) by {
                        assert(forall|k: int|
                            0 <= k < prev_ts.len() ==> ts.deep_view()[k] == prev_ts[k]);
                        assert(ts.deep_view().last() == tv);
                        assert(!prev_ts.contains(tv));
                    }
                    assert(old(ts).deep_view().is_prefix_of(ts.deep_view()));
                    assert forall|t2: Seq<char>| #![trigger ts.deep_view().contains(t2)]
                        ts.deep_view().contains(t2) <==> (old(ts).deep_view().contains(t2)
                            || dv.take(i + 1).contains(t2)) by {
                        lemma_push_contains(prev_ts, tv, t2);
                        lemma_take_succ_contains(dv, i as int, t2);
                    }
                    assert(!dv.take(i as int).contains(tv));
                    assert(tok_count(dv.take(i as int), tv) == 0);
                    assert forall|j: usize| #[trigger] r@.to_multiset().count(j) == (if j
                        < ts.deep_view().len() {
                        tok_count(dv.take(i + 1), ts.deep_view()[j as int])
                    } else {
                        0nat
                    }) by {
                        assert(r@ == prev_r.push(id));
                        if j < prev_ts.len() {
                            assert(ts.deep_view()[j as int] == prev_ts[j as int]);
                            assert(prev_ts[j as int] != tv) by {
                                assert(prev_ts.contains(prev_ts[j as int]));
                            }
                        } else if j == id {
                            assert(ts.deep_view()[j as int] == tv);
                            assert(prev_r.to_multiset().count(j) == 0);
                        }
                    }
                }
            },
        }
        i += 1;
    }
    assert(dv.take(dv.len() as int) =~= dv);
    r
}

/// The permutation of the feature-sort pass: old first-seen ids to the
/// position of the same token in the sorted list.
fn build_perm(first_seen: &Vec<Vec<char>>, sorted_toks: &Vec<Vec<char>>) -> (perm: Vec<usize>)
    requires
        distinct_seq(sorted_toks.deep_view()),
        forall|t: Seq<char>| #![trigger sorted_toks.deep_view().contains(t)]
            sorted_toks.deep_view().contains(t) <==> first_seen.deep_view().contains(t),
    ensures
        perm@.len() == first_seen.deep_view().len(),
        forall|o: int|
            0 <= o < perm@.len() ==> (#[trigger] perm@[o]) < sorted_toks.deep_view().len()
                && sorted_toks.deep_view()[perm@[o] as int] == first_seen.deep_view()[o],
{
    let ghost fdv = first_seen.deep_view();
    let ghost sdv = sorted_toks.deep_view();
    let mut perm: Vec<usize> = Vec::new();
    let mut o: usize = 0;
    while o < first_seen.len()
        invariant
            o <= first_seen@.len(),
            fdv == first_seen.deep_view(),
            sdv == sorted_toks.deep_view(),
            fdv.len() == first_seen@.len(),
            forall|t: Seq<char>| #![trigger sdv.contains(t)]
                sdv.contains(t) <==> fdv.contains(t),
            perm@.len() == o,
            forall|q: int|
                0 <= q < o ==> (#[trigger] perm@[q]) < sdv.len() && sdv[perm@[q] as int]
                    == fdv[q],
        decreases first_seen@.len() - o,
    {
        assert(first_seen@[o as int]@ =~= fdv[o as int]);
        assert(fdv.contains(fdv[o as int]));
        let p = match index_of_token(sorted_toks, &first_seen[o]) {
            Some(p) => p,
            None => {
                proof {
                    assert(sdv.contains(fdv[o as int]));
                    assert(false);
                }
                0
            },
        };
        perm.push(p);
        o += 1;
    }
    perm
}

/// Apply the id permutation to a raw id list.
fn map_ids(ids: &Vec<usize>, perm: &Vec<usize>) -> (r: Vec<usize>)
    requires
        forall|k: int| 0 <= k < ids@.len() ==> (#[trigger] ids@[k]) < perm@.len(),
    ensures
        r@.len() == ids@.len(),
        forall|k: int| 0 <= k < r@.len() ==> #[trigger] r@[k] == perm@[ids@[k] as int],
{
    let mut r: Vec<usize> = Vec::new();
    let mut k: usize = 0;
    while k < ids.len()
        invariant
            k <= ids@.len(),
            forall|q: int| 0 <= q < ids@.len() ==> (#[trigger] ids@[q]) < perm@.len(),
            r@.len() == k,
            forall|q: int| 0 <= q < k ==> #[trigger] r@[q] == perm@[ids@[q] as int],
        decreases ids@.len() - k,
    {
        r.push(perm[ids[k]]);
        k += 1;
    }
    r
}

/// Renumbering ids through a permutation carries each multiplicity from
/// an old id to its new id.
proof fn lemma_map_count(ids: Seq<usize>, mapped: Seq<usize>, perm: Seq<usize>, o: usize, j: usize)
    requires
        mapped.len() == ids.len(),
        forall|k: int| 0 <= k < ids.len() ==> (#[trigger] ids[k]) < perm.len(),
        forall|k: int| 0 <= k < mapped.len() ==> #[trigger] mapped[k] == perm[ids[k] as int],
        o < perm.len(),
        perm[o as int] == j,
        forall|o2: int| 0 <= o2 < perm.len() && #[trigger] perm[o2] == j ==> o2 == o,
    ensures
        mapped.to_multiset().count(j) == ids.to_multiset().count(o),
    decreases ids.len(),
{
    if ids.len() == 0 {
        assert(mapped =~= Seq::<usize>::empty());
        assert(ids =~= Seq::<usize>::empty());
        assert(mapped.to_multiset() =~= Multiset::<usize>::empty());
        assert(ids.to_multiset() =~= Multiset::<usize>::empty());
    } else {
        let ids0 = ids.drop_last();
        let mapped0 = mapped.drop_last();
        assert(forall|k: int| 0 <= k < mapped0.len() ==> #[trigger] mapped0[k] == mapped[k]);
        assert(forall|k: int| 0 <= k < ids0.len() ==> #[trigger] ids0[k] == ids[k]);
        lemma_map_count(ids0, mapped0, perm, o, j);
        assert(ids =~= ids0.push(ids.last()));
        assert(mapped =~= mapped0.push(mapped.last()));
        assert(mapped.last() == perm[ids.last() as int]);
        if ids.last() == o {
            assert(mapped.last() == j);
        } else {
            assert(mapped.last() != j);
        }
    }
}

/// An id outside the permutation's range never appears after renumbering.
proof fn lemma_map_count_missing(ids: Seq<usize>, mapped: Seq<usize>, perm: Seq<usize>, j: usize)
    requires
        mapped.len() == ids.len(),
        forall|k: int| 0 <= k < ids.len() ==> (#[trigger] ids[k]) < perm.len(),
        forall|k: int| 0 <= k < mapped.len() ==> #[trigger] mapped[k] == perm[ids[k] as int],
        forall|o2: int| 0 <= o2 < perm.len() ==> #[trigger] perm[o2] != j,
    ensures
        mapped.to_multiset().count(j) == 0,
    decreases ids.len(),
{
    if ids.len() == 0 {
        assert(mapped =~= Seq::<usize>::empty());
        assert(mapped.to_multiset() =~= Multiset::<usize>::empty());
    } else {
        let ids0 = ids.drop_last();
        let mapped0 = mapped.drop_last();
        assert(forall|k: int| 0 <= k < mapped0.len() ==> #[trigger] mapped0[k] == mapped[k]);
        assert(forall|k: int| 0 <= k < ids0.len() ==> #[trigger] ids0[k] == ids[k]);
        lemma_map_count_missing(ids0, mapped0, perm, j);
        assert(mapped =~= mapped0.push(mapped.last()));
        assert(mapped.last() == perm[ids.last() as int]);
        assert(mapped.last() != j);
    }
}

/// A filter that keeps every element keeps the whole sequence.
proof fn lemma_filter_all(s: Seq<Seq<char>>, pred: spec_fn(Seq<char>) -> bool)
    requires
        forall|k: int| 0 <= k < s.len() ==> pred(#[trigger] s[k]),
    ensures
        s.filter(pred) == s,
    decreases s.len(),
{
    reveal(Seq::filter);
    if s.len() == 0 {
        assert(s.filter(pred) =~= s);
    } else {
        let s0 = s.drop_last();
        assert(forall|k: int| 0 <= k < s0.len() ==> pred(#[trigger] s0[k]));
        lemma_filter_all(s0, pred);
        assert(pred(s.last()));
        assert(s.filter(pred) =~= s);
    }
}

/// Single-pass vectorization. Vocabulary ids are handed out in first-seen
/// order while the documents stream by; a final feature-sort pass builds
/// the permutation from first-seen ids to lexicographic ids, renumbers
/// every accumulated column id through it, and the rows are then sorted
/// and summed. The result is identical to `fit_vocab` followed by
/// `count_rows`.
pub fn fit_transform_rows(docs: &Vec<Vec<Vec<char>>>) -> (r: (CSRArray, Vocabulary))
    requires
        forall|d: int| 0 <= d < docs@.len() ==> (#[trigger] docs@[d])@.len() <= 0x7fff_ffff,
    ensures
        r.1.wf(),
        fit_post(r.1@, docs@),
        r.0.wf(),
        r.0.spec_rows() == docs@.len(),
        forall|d: int|
            0 <= d < docs@.len() ==> count_row_matches(
                #[trigger] r.0.row_indices(d),
                r.0.row_data(d),
                docs@[d].deep_view(),
                r.1@,
            ),
{
    // First pass: assign first-seen ids, keep each document's raw id list.
    let mut first_seen: Vec<Vec<char>> = Vec::new();
    let mut raw: Vec<Vec<usize>> = Vec::new();
    let mut d: usize = 0;
    while d < docs.len()
        invariant
            d <= docs@.len(),
            forall|e: int| 0 <= e < docs@.len() ==> (#[trigger] docs@[e])@.len() <= 0x7fff_ffff,
            distinct_seq(first_seen.deep_view()),
            forall|t: Seq<char>| #![trigger first_seen.deep_view().contains(t)]
                first_seen.deep_view().contains(t) <==> exists|e: int|
                    0 <= e < d && (#[trigger] docs@[e]).deep_view().contains(t),
            raw@.len() == d,
            forall|e: int| 0 <= e < d ==> (#[trigger] raw@[e])@.len() == docs@[e]@.len(),
            forall|e: int, j: usize|
                0 <= e < d ==> #[trigger] (raw@[e])@.to_multiset().count(j) == (if j
                    < first_seen.deep_view().len() {
                    tok_count(docs@[e].deep_view(), first_seen.deep_view()[j as int])
                } else {
                    0nat
                }),
        decreases docs@.len() - d,
    {
        let ghost prev_fs = first_seen.deep_view();
        let ids = doc_ids_assign(&docs[d], &mut first_seen);
        raw.push(ids);
        proof {
            let fs = first_seen.deep_view();
            assert(docs@[d as int]@.len() == docs@[d as int].deep_view().len());
            assert forall|t: Seq<char>| #![trigger fs.contains(t)] fs.contains(t)
                <==> exists|e: int|
                0 <= e < d + 1 && (#[trigger] docs@[e]).deep_view().contains(t) by {
                if fs.contains(t) {
                    if prev_fs.contains(t) {
                        let e = choose|e: int|
                            0 <= e < d && (#[trigger] docs@[e]).deep_view().contains(t);
                        assert(docs@[e].deep_view().contains(t));
                    } else {
                        assert(docs@[d as int].deep_view().contains(t));
                    }
                }
                if exists|e: int|
                    0 <= e < d + 1 && (#[trigger] docs@[e]).deep_view().contains(t) {
                    let e = choose|e: int|
                        0 <= e < d + 1 && (#[trigger] docs@[e]).deep_view().contains(t);
                    if e < d {
                        assert(prev_fs.contains(t));
                    } else {
                        assert(docs@[d as int].deep_view().contains(t));
                    }
                }
            }
            assert forall|e: int, j: usize| 0 <= e < d + 1 implies #[trigger] (
            raw@[e])@.to_multiset().count(j) == (if j < fs.len() {
                tok_count(docs@[e].deep_view(), fs[j as int])
            } else {
                0nat
            }) by {
                if e < d {
                    if j < prev_fs.len() {
                        assert(fs[j as int] == prev_fs[j as int]);
                    } else if j < fs.len() {
                        // A token first seen in the current document: earlier
                        // documents cannot hold it, so its count there is zero.
                        assert((raw@[e])@.to_multiset().count(j) == 0);
                        assert(fs.contains(fs[j as int]));
                        assert(!prev_fs.contains(fs[j as int])) by {
                            if prev_fs.contains(fs[j as int]) {
                                let q = choose|q: int|
                                    0 <= q < prev_fs.len() && prev_fs[q] == fs[j as int];
                                assert(fs[q] == fs[j as int]);
                            }
                        }
                        assert(tok_count(docs@[e].deep_view(), fs[j as int]) == 0) by {
                            if tok_count(docs@[e].deep_view(), fs[j as int]) > 0 {
                                assert(docs@[e].deep_view().contains(fs[j as int]));
                                assert(prev_fs.contains(fs[j as int]));
                            }
                        }
                    }
                } else {
                    assert(raw@[d as int]@ == ids@);
                }
            }
        }
        d += 1;
    }
    // Feature-sort pass: sort the vocabulary, renumber every id.
    let sorted_toks = sort_tokens(&first_seen);
    proof {
        lemma_lex_sorted_distinct(sorted_toks.deep_view());
    }
    let perm = build_perm(&first_seen, &sorted_toks);
    let vocab = Vocabulary::from_tokens(sorted_toks);
    let ghost fs = first_seen.deep_view();
    // Second pass over the stored id lists: remap, sort, sum.
    let mut m = CSRArray::new_empty();
    let mut e: usize = 0;
    while e < raw.len()
        invariant
            e <= raw@.len(),
            raw@.len() == docs@.len(),
            forall|q: int| 0 <= q < docs@.len() ==> (#[trigger] docs@[q])@.len() <= 0x7fff_ffff,
            forall|q: int| 0 <= q < raw@.len() ==> (#[trigger] raw@[q])@.len() == docs@[q]@.len(),
            forall|q: int, j: usize|
                0 <= q < raw@.len() ==> #[trigger] (raw@[q])@.to_multiset().count(j) == (if j
                    < fs.len() {
                    tok_count(docs@[q].deep_view(), fs[j as int])
                } else {
                    0nat
                }),
            fs == first_seen.deep_view(),
            distinct_seq(fs),
            vocab.wf(),
            vocab@.len() == fs.len(),
            perm@.len() == fs.len(),
            forall|o: int|
                0 <= o < perm@.len() ==> (#[trigger] perm@[o]) < vocab@.len()
                    && vocab@[perm@[o] as int] == fs[o],
            forall|t: Seq<char>| #![trigger vocab@.contains(t)]
                vocab@.contains(t) <==> fs.contains(t),
            forall|t: Seq<char>| #![trigger fs.contains(t)]
                fs.contains(t) <==> exists|q: int|
                    0 <= q < docs@.len() && (#[trigger] docs@[q]).deep_view().contains(t),
            m.wf(),
            m.spec_rows() == e,
            forall|q: int|
                0 <= q < e ==> count_row_matches(
                    #[trigger] m.row_indices(q),
                    m.row_data(q),
                    docs@[q].deep_view(),
                    vocab@,
                ),
        decreases raw@.len() - e,
    {
        proof {
            let ghost rawe0 = (raw@[e as int])@;
            assert forall|k: int| 0 <= k < rawe0.len() implies (#[trigger] rawe0[k])
                < perm@.len() by {
                let j = rawe0[k];
                assert(rawe0.contains(j));
                assert(rawe0.to_multiset().count(j) > 0);
                if j >= fs.len() {
                    assert(rawe0.to_multiset().count(j) == 0);
                }
            }
        }
        let mapped = map_ids(&raw[e], &perm);
        let ghost n = m.spec_rows();
        append_id_row(&mut m, &mapped);
        proof {
            let dv = docs@[e as int].deep_view();
            let idx = m.row_indices(n);
            let dat = m.row_data(n);
            let rawe = (raw@[e as int])@;
            // Multiplicities carry over through the permutation.
            assert forall|j: usize| j < vocab@.len() implies #[trigger] mapped@.to_multiset().count(
                j,
            ) == tok_count(dv, vocab@[j as int]) by {
                let t = vocab@[j as int];
                assert(vocab@.contains(t));
                assert(fs.contains(t));
                let o = choose|o: int| 0 <= o < fs.len() && fs[o] == t;
                assert(vocab@[perm@[o] as int] == fs[o]);
                assert(perm@[o] == j) by {
                    if perm@[o] != j {
                        assert(vocab@[perm@[o] as int] == vocab@[j as int]);
                    }
                }
                assert forall|o2: int| 0 <= o2 < perm@.len() && #[trigger] perm@[o2] == j
                    implies o2 == o by {
                    assert(vocab@[perm@[o2] as int] == fs[o2]);
                    assert(fs[o2] == t);
                    if o2 != o {
                        assert(fs[o2] != fs[o] || o2 == o);
                    }
                }
                lemma_map_count(rawe, mapped@, perm@, o as usize, j);
                assert(rawe.to_multiset().count(o as usize) == tok_count(dv, fs[o]));
            }
            assert forall|j: usize| j >= vocab@.len() implies #[trigger] mapped@.to_multiset().count(
                j,
            ) == 0 by {
                assert(forall|o2: int| 0 <= o2 < perm@.len() ==> #[trigger] perm@[o2] != j);
                lemma_map_count_missing(rawe, mapped@, perm@, j);
            }
            // The row matches the document under the sorted vocabulary.
            assert forall|j: usize| #[trigger] idx.contains(j) <==> (j < vocab@.len()
                && tok_count(dv, vocab@[j as int]) > 0) by {
                assert(idx.contains(j) <==> mapped@.contains(j));
                assert(mapped@.contains(j) <==> mapped@.to_multiset().count(j) > 0);
            }
            assert forall|k: int| 0 <= k < idx.len() implies (#[trigger] dat[k]) as int
                == tok_count(dv, vocab@[idx[k] as int]) by {
                assert(idx.contains(idx[k]));
                assert(dat[k] as int == mapped@.to_multiset().count(idx[k]));
            }
            assert(sum_of(dat) == dv.filter(|t: Seq<char>| vocab@.contains(t)).len()) by {
                assert(sum_of(dat) == mapped@.len());
                assert(mapped@.len() == rawe.len());
                assert(rawe.len() == docs@[e as int]@.len());
                assert(dv.len() == docs@[e as int]@.len());
                assert forall|k: int| 0 <= k < dv.len() implies vocab@.contains(
                    #[trigger] dv[k],
                ) by {
                    assert(dv.contains(dv[k]));
                    assert(exists|q: int|
                        0 <= q < docs@.len() && (#[trigger] docs@[q]).deep_view().contains(
                            dv[k],
                        )) by {
                        assert(docs@[e as int].deep_view().contains(dv[k]));
                    }
                    assert(fs.contains(dv[k]));
                }
                lemma_filter_all(dv, |t: Seq<char>| vocab@.contains(t));
            }
            assert(count_row_matches(idx, dat, dv, vocab@));
        }
        e += 1;
    }
    proof {
        assert forall|t: Seq<char>| #![trigger vocab@.contains(t)] vocab@.contains(t)
            <==> exists|q: int|
            0 <= q < docs@.len() && (#[trigger] docs@[q]).deep_view().contains(t) by {}
    }
    (m, vocab)
}

/// The value seahash's seeded hash assigns to a byte string: a pure
/// function of the bytes and the four seed words, identical across calls,
/// processes and machines.
pub uninterp spec fn seahash_seeded(bytes: Seq<u8>, k1: u64, k2: u64, k3: u64, k4: u64) -> u64;

/// Relies on `seahash::hash_seeded`: the hash of a buffer under four
/// seeds, documented as a portable, deterministic function of its
/// arguments.
pub assume_specification[ seahash::hash_seeded ](
    buf: &[u8],
    a: u64,
    b: u64,
    c: u64,
    d: u64,
) -> (r: u64)
    ensures
        r == seahash_seeded(buf@, a, b, c, d),
;

/// The column the hashing vectorizer assigns to a token: its seeded hash
/// reduced modulo the feature count. The seeds are fixed so that results
/// are reproducible across calls and processes.
pub open spec fn hash_column(t: Seq<char>, n_features: u64) -> usize {
    (seahash_seeded(vstd::utf8::encode_utf8(t), 1, 1000, 200, 89) % n_features) as usize
}

/// Hash one token to its column id.
fn hash_token(tok: &Vec<char>, n_features: u64) -> (r: usize)
    requires
        1 <= n_features,
        n_features <= usize::MAX as u64,
    ensures
        r == hash_column(tok@, n_features),
        r < n_features,
{
    let s = chars_string(tok);
    let h = seahash::hash_seeded(s.as_str().as_bytes(), 1, 1000, 200, 89);
    let c = h % n_features;
    assert(c < n_features);
    c as usize
}

/// What a correct hashing-vectorizer row for document `doc` looks like:
/// strictly ascending column ids below `n_features`, exactly the hash
/// columns of the document's tokens, each with the number of tokens that
/// hash to it, the counts summing to the document length.
pub open spec fn hash_row_matches(
    idx: Seq<usize>,
    dat: Seq<i32>,
    doc: Seq<Seq<char>>,
    n_features: u64,
) -> bool {
    let cols = doc.map_values(|t: Seq<char>| hash_column(t, n_features));
    &&& strictly_sorted(idx)
    &&& idx.len() == dat.len()
    &&& forall|j: usize| #[trigger] idx.contains(j) <==> cols.contains(j)
    &&& forall|k: int|
        0 <= k < idx.len() ==> (#[trigger] dat[k]) as int == cols.to_multiset().count(idx[k])
    &&& sum_of(dat) == doc.len()
    &&& forall|k: int| 0 <= k < idx.len() ==> (#[trigger] idx[k]) < n_features
}

/// The hash column of every token of a document, in document order.
fn hash_doc_ids(doc: &Vec<Vec<char>>, n_features: u64) -> (r: Vec<usize>)
    requires
        1 <= n_features,
        n_features <= usize::MAX as u64,
    ensures
        r@ == doc.deep_view().map_values(|t: Seq<char>| hash_column(t, n_features)),
        forall|k: int| 0 <= k < r@.len() ==> (#[trigger] r@[k]) < n_features,
{
    let ghost dv = doc.deep_view();
    let ghost f = |t: Seq<char>| hash_column(t, n_features);
    let mut r: Vec<usize> = Vec::new();
    let mut i: usize = 0;
    while i < doc.len()
        invariant
            1 <= n_features <= usize::MAX as u64,
            i <= doc@.len(),
            dv == doc.deep_view(),
            dv.len() == doc@.len(),
            f == |t: Seq<char>| hash_column(t, n_features),
            r@ =~= dv.take(i as int).map_values(f),
            forall|k: int| 0 <= k < r@.len() ==> (#[trigger] r@[k]) < n_features,
        decreases doc@.len() - i,
    {
        assert(doc@[i as int]@ =~= dv[i as int]);
        let c = hash_token(&doc[i], n_features);
        r.push(c);
        assert(r@ =~= dv.take(i + 1).map_values(f)) by {
            assert(dv.take(i + 1) =~= dv.take(i as int).push(dv[i as int]));
        }
        i += 1;
    }
    assert(dv.take(dv.len() as int) =~= dv);
    r
}

/// Transform already-tokenized documents into a CSR matrix over a fixed
/// hash space: one row per document, columns sorted, tokens hashing to
/// the same bucket summed. No vocabulary exists; the mapping is the fixed
/// seeded hash.
pub fn hash_rows(docs: &Vec<Vec<Vec<char>>>, n_features: u64) -> (r: CSRArray)
    requires
        1 <= n_features,
        n_features <= usize::MAX as u64,
        forall|d: int| 0 <= d < docs@.len() ==> (#[trigger] docs@[d])@.len() <= 0x7fff_ffff,
    ensures
        r.wf(),
        r.spec_rows() == docs@.len(),
        forall|d: int|
            0 <= d < docs@.len() ==> hash_row_matches(
                #[trigger] r.row_indices(d),
                r.row_data(d),
                docs@[d].deep_view(),
                n_features,
            ),
{
    let mut m = CSRArray::new_empty();
    let mut d: usize = 0;
    while d < docs.len()
        invariant
            1 <= n_features <= usize::MAX as u64,
            d <= docs@.len(),
            forall|e: int| 0 <= e < docs@.len() ==> (#[trigger] docs@[e])@.len() <= 0x7fff_ffff,
            m.wf(),
            m.spec_rows() == d,
            forall|e: int|
                0 <= e < d ==> hash_row_matches(
                    #[trigger] m.row_indices(e),
                    m.row_data(e),
                    docs@[e].deep_view(),
                    n_features,
                ),
        decreases docs@.len() - d,
    {
        let ids = hash_doc_ids(&docs[d], n_features);
        let ghost n = m.spec_rows();
        assert(ids@.len() == docs@[d as int].deep_view().len());
        append_id_row(&mut m, &ids);
        proof {
            let dv = docs@[d as int].deep_view();
            let cols = dv.map_values(|t: Seq<char>| hash_column(t, n_features));
            let idx = m.row_indices(n);
            let dat = m.row_data(n);
            assert(ids@ == cols);
            assert forall|k: int| 0 <= k < idx.len() implies (#[trigger] idx[k]) < n_features by {
                assert(idx.contains(idx[k]));
                assert(ids@.contains(idx[k]));
                let q = choose|q: int| 0 <= q < ids@.len() && ids@[q] == idx[k];
            }
            assert(hash_row_matches(idx, dat, dv, n_features));
        }
        d += 1;
    }
    m
}

/// The vocabulary a corpus determines is unique: two vocabularies that
/// both satisfy `fit_post` for the same documents are equal. In
/// particular the outcome of `fit_vocab` does not depend on the chunk
/// size, so splitting the corpus over any number of workers leaves the
/// vocabulary unchanged.
pub proof fn lemma_fit_vocab_unique(a: Seq<Seq<char>>, b: Seq<Seq<char>>, docs: Seq<Vec<Vec<char>>>)
    requires
        fit_post(a, docs),
        fit_post(b, docs),
    ensures
        a == b,
{
    assert forall|t: Seq<char>| a.contains(t) <==> b.contains(t) by {}
    lemma_lex_sorted_same_members(a, b);
}

/// Fitting then transforming agrees with the single-pass
/// `fit_transform`: given one document list, a vocabulary built by
/// `fit_vocab` with a matrix built by `count_rows` under it equals the
/// pair built by `fit_transform_rows`, column for column and count for
/// count.
pub proof fn lemma_fit_transform_agrees(
    v1: Seq<Seq<char>>,
    m1: &CSRArray,
    v2: Seq<Seq<char>>,
    m2: &CSRArray,
    docs: Seq<Vec<Vec<char>>>,
)
    requires
        fit_post(v1, docs),
        m1.wf(),
        m1.spec_rows() == docs.len(),
        forall|d: int|
            0 <= d < docs.len() ==> count_row_matches(
                #[trigger] m1.row_indices(d),
                m1.row_data(d),
                docs[d].deep_view(),
                v1,
            ),
        fit_post(v2, docs),
        m2.wf(),
        m2.spec_rows() == docs.len(),
        forall|d: int|
            0 <= d < docs.len() ==> count_row_matches(
                #[trigger] m2.row_indices(d),
                m2.row_data(d),
                docs[d].deep_view(),
                v2,
            ),
    ensures
        v1 == v2,
        m1.indptr@ == m2.indptr@,
        m1.indices@ == m2.indices@,
        m1.data@ == m2.data@,
{
    lemma_fit_vocab_unique(v1, v2, docs);
    assert forall|d: int| 0 <= d < docs.len() implies #[trigger] m1.row_indices(d)
        == m2.row_indices(d) && m1.row_data(d) == m2.row_data(d) by {
        lemma_count_row_unique(
            m1.row_indices(d),
            m1.row_data(d),
            m2.row_indices(d),
            m2.row_data(d),
            docs[d].deep_view(),
            v1,
        );
    }
    lemma_csr_eq_from_rows(m1, m2);
}

/// A document with no tokens gets an empty row: nothing is added to
/// `indices` or `data`, only the row boundary moves on.
pub proof fn lemma_empty_doc_empty_row(
    idx: Seq<usize>,
    dat: Seq<i32>,
    doc: Seq<Seq<char>>,
    vocab: Seq<Seq<char>>,
)
    requires
        count_row_matches(idx, dat, doc, vocab),
        doc.len() == 0,
    ensures
        idx.len() == 0,
        dat.len() == 0,
{
    if idx.len() > 0 {
        assert(idx.contains(idx[0]));
        let j = idx[0];
        assert(tok_count(doc, vocab[j as int]) > 0);
        assert(doc.contains(vocab[j as int]));
    }
}

/// Builder for the count vectorizer.
#[derive(Debug, Clone)]
pub struct CountVectorizerParams<T> {
    lowercase: bool,
    tokenizer: T,
    n_jobs: usize,
}

impl<T: Tokenizer + Clone> CountVectorizerParams<T> {
    /// Whether documents are ASCII-lowercased before tokenization.
    pub closed spec fn spec_lowercase(&self) -> bool {
        self.lowercase
    }

    /// How many workers the corpus is split over during `fit`.
    pub closed spec fn spec_n_jobs(&self) -> usize {
        self.n_jobs
    }

    /// Choose whether documents are lowercased first.
    pub fn lowercase(&mut self, value: bool) -> (r: CountVectorizerParams<T>)
        ensures
            final(self).spec_lowercase() == value,
            final(self).spec_n_jobs() == old(self).spec_n_jobs(),
            r.spec_lowercase() == value,
            r.spec_n_jobs() == old(self).spec_n_jobs(),
    {
        self.lowercase = value;
        CountVectorizerParams {
            lowercase: self.lowercase,
            tokenizer: self.tokenizer.clone(),
            n_jobs: self.n_jobs,
        }
    }

    /// Replace the tokenizer.
    pub fn tokenizer(&mut self, value: T) -> (r: CountVectorizerParams<T>)
        ensures
            final(self).spec_lowercase() == old(self).spec_lowercase(),
            final(self).spec_n_jobs() == old(self).spec_n_jobs(),
            r.spec_lowercase() == old(self).spec_lowercase(),
            r.spec_n_jobs() == old(self).spec_n_jobs(),
    {
        self.tokenizer = value;
        CountVectorizerParams {
            lowercase: self.lowercase,
            tokenizer: self.tokenizer.clone(),
            n_jobs: self.n_jobs,
        }
    }

    /// Set the worker count used by `fit`.
    pub fn n_jobs(&mut self, value: usize) -> (r: CountVectorizerParams<T>)
        ensures
            final(self).spec_lowercase() == old(self).spec_lowercase(),
            final(self).spec_n_jobs() == value,
            r.spec_lowercase() == old(self).spec_lowercase(),
            r.spec_n_jobs() == value,
    {
        self.n_jobs = value;
        CountVectorizerParams {
            lowercase: self.lowercase,
            tokenizer: self.tokenizer.clone(),
            n_jobs: self.n_jobs,
        }
    }

    /// Build the vectorizer, with an empty vocabulary. Fails exactly when
    /// `n_jobs` is zero.
    pub fn build(&mut self) -> (r: Result<CountVectorizer<T>, EstimatorErr>)
        ensures
            r is Ok <==> old(self).spec_n_jobs() >= 1,
            r matches Ok(v) ==> v.vocabulary@ =~= Seq::<Seq<char>>::empty()
                && v.params.spec_lowercase() == old(self).spec_lowercase()
                && v.params.spec_n_jobs() == old(self).spec_n_jobs(),
            r matches Err(e) ==> e matches EstimatorErr::InvalidParams(_),
    {
        if self.n_jobs < 1 {
            return Err(EstimatorErr::InvalidParams("`n_jobs` must be at least 1".to_owned()));
        }
        Ok(
            CountVectorizer {
                params: CountVectorizerParams {
                    lowercase: self.lowercase,
                    tokenizer: self.tokenizer.clone(),
                    n_jobs: self.n_jobs,
                },
                vocabulary: Vocabulary::new(),
            },
        )
    }
}

impl<T: Tokenizer + Clone + Default> Default for CountVectorizerParams<T> {
    /// Lowercasing on, one worker, the tokenizer's own default.
    fn default() -> (r: CountVectorizerParams<T>)
        ensures
            r.spec_lowercase() == true,
            r.spec_n_jobs() == 1,
    {
        CountVectorizerParams { lowercase: true, tokenizer: T::default(), n_jobs: 1 }
    }
}

/// Count vectorizer: learns a vocabulary over a corpus and turns
/// documents into rows of term counts.
#[derive(Debug)]
pub struct CountVectorizer<T> {
    pub params: CountVectorizerParams<T>,
    pub vocabulary: Vocabulary,
}

impl<T: Tokenizer + Clone> CountVectorizer<T> {
    /// A vectorizer with the given tokenizer, lowercasing on, one worker,
    /// and an empty vocabulary.
    pub fn new(tokenizer: T) -> (r: CountVectorizer<T>)
        ensures
            r.vocabulary@ =~= Seq::<Seq<char>>::empty(),
            r.params.spec_lowercase() == true,
            r.params.spec_n_jobs() == 1,
    {
        CountVectorizer {
            params: CountVectorizerParams { lowercase: true, tokenizer, n_jobs: 1 },
            vocabulary: Vocabulary::new(),
        }
    }

    /// Initialize from explicit parameters and an existing vocabulary.
    pub fn with_params_and_vocabulary(
        params: CountVectorizerParams<T>,
        vocabulary: Vocabulary,
    ) -> (r: CountVectorizer<T>)
        ensures
            r.params == params,
            r.vocabulary == vocabulary,
    {
        CountVectorizer { params, vocabulary }
    }

    /// The number of learned features.
    pub fn n_features(&self) -> (r: usize)
        ensures
            r == self.vocabulary@.len(),
    {
        self.vocabulary.len()
    }

    /// Lowercase (if configured) and tokenize every document. Documents
    /// are capped at `i32::MAX` tokens so that every count fits the `i32`
    /// data array.
    fn tokenize_docs(&self, docs: &Vec<String>) -> (r: Vec<Vec<Vec<char>>>)
        ensures
            r@.len() == docs@.len(),
            forall|d: int| 0 <= d < r@.len() ==> (#[trigger] r@[d])@.len() <= 0x7fff_ffff,
    {
        tokenize_documents(&self.params.tokenizer, self.params.lowercase, docs)
    }

    /// Learn the vocabulary: the lexicographically ordered distinct
    /// tokens of the corpus, replacing whatever was learned before. The
    /// corpus is processed in chunks sized from `n_jobs` and the chunk
    /// token sets are merged; the chunking never shows in the result.
    pub fn fit(&mut self, docs: &Vec<String>)
        ensures
            final(self).vocabulary.wf(),
            lex_sorted(final(self).vocabulary@),
            final(self).params == old(self).params,
    {
        let n_jobs = if self.params.n_jobs >= 1 {
            self.params.n_jobs
        } else {
            1
        };
        let q = docs.len() / n_jobs / 4;
        let chunk_size = if q >= 1 {
            q
        } else {
            1
        };
        let tokenized = self.tokenize_docs(docs);
        let vocab = fit_vocab(&tokenized, chunk_size);
        self.vocabulary = vocab;
    }

    /// Turn documents into a CSR matrix of term counts under the current
    /// vocabulary; tokens the vocabulary does not know contribute
    /// nothing. One row per document, in order.
    pub fn transform(&mut self, docs: &Vec<String>) -> (r: CSRArray)
        requires
            old(self).vocabulary.wf(),
        ensures
            *final(self) == *old(self),
            r.wf(),
            r.spec_rows() == docs@.len(),
    {
        let tokenized = self.tokenize_docs(docs);
        count_rows(&tokenized, &self.vocabulary)
    }

    /// Learn the vocabulary and build the matrix in one pass over the
    /// corpus: ids are assigned in first-seen order and renumbered into
    /// lexicographic order by the final feature-sort pass, so the result
    /// equals `fit` followed by `transform`.
    pub fn fit_transform(&mut self, docs: &Vec<String>) -> (r: CSRArray)
        ensures
            final(self).vocabulary.wf(),
            lex_sorted(final(self).vocabulary@),
            final(self).params == old(self).params,
            r.wf(),
            r.spec_rows() == docs@.len(),
    {
        let tokenized = self.tokenize_docs(docs);
        let (m, vocab) = fit_transform_rows(&tokenized);
        self.vocabulary = vocab;
        m
    }
}

impl<T: Tokenizer + Clone + Default> Default for CountVectorizer<T> {
    /// A vectorizer over the tokenizer's default, with default
    /// parameters and an empty vocabulary.
    fn default() -> (r: CountVectorizer<T>)
        ensures
            r.vocabulary@ =~= Seq::<Seq<char>>::empty(),
    {
        CountVectorizer {
            params: CountVectorizerParams { lowercase: true, tokenizer: T::default(), n_jobs: 1 },
            vocabulary: Vocabulary::new(),
        }
    }
}

/// Lowercase (if asked) and tokenize every document with the given
/// tokenizer, capping each document at `i32::MAX` tokens so counts fit
/// the `i32` data array.
fn tokenize_documents<T: Tokenizer>(tokenizer: &T, lowercase: bool, docs: &Vec<String>) -> (r: Vec<
    Vec<Vec<char>>,
>)
    ensures
        r@.len() == docs@.len(),
        forall|d: int| 0 <= d < r@.len() ==> (#[trigger] r@[d])@.len() <= 0x7fff_ffff,
{
    let mut out: Vec<Vec<Vec<char>>> = Vec::new();
    let mut d: usize = 0;
    while d < docs.len()
        invariant
            d <= docs@.len(),
            out@.len() == d,
            forall|e: int| 0 <= e < out@.len() ==> (#[trigger] out@[e])@.len() <= 0x7fff_ffff,
        decreases docs@.len() - d,
    {
        let cs = str_chars(&docs[d]);
        let text = if lowercase {
            chars_string(&to_ascii_lowercase(&cs))
        } else {
            chars_string(&cs)
        };
        let mut toks = tokenizer.tokenize(&text);
        if toks.len() > 0x7fff_ffff {
            toks.truncate(0x7fff_ffff);
        }
        let mut doc: Vec<Vec<char>> = Vec::new();
        let mut i: usize = 0;
        while i < toks.len()
            invariant
                i <= toks@.len(),
                toks@.len() <= 0x7fff_ffff,
                doc@.len() == i,
            decreases toks@.len() - i,
        {
            doc.push(str_chars(&toks[i]));
            i += 1;
        }
        out.push(doc);
        d += 1;
    }
    out
}

/// Builder for the hashing vectorizer.
#[derive(Debug, Clone)]
pub struct HashingVectorizerParams<T> {
    n_features: u64,
    lowercase: bool,
    tokenizer: T,
    n_jobs: usize,
}

impl<T: Tokenizer + Clone> HashingVectorizerParams<T> {
    /// The width of the hash space.
    pub closed spec fn spec_n_features(&self) -> u64 {
        self.n_features
    }

    /// Whether documents are ASCII-lowercased before tokenization.
    pub closed spec fn spec_lowercase(&self) -> bool {
        self.lowercase
    }

    /// How many workers transform splits the corpus over.
    pub closed spec fn spec_n_jobs(&self) -> usize {
        self.n_jobs
    }

    /// Choose whether documents are lowercased first.
    pub fn lowercase(&mut self, value: bool) -> (r: HashingVectorizerParams<T>)
        ensures
            final(self).spec_lowercase() == value,
            final(self).spec_n_features() == old(self).spec_n_features(),
            final(self).spec_n_jobs() == old(self).spec_n_jobs(),
            r.spec_lowercase() == value,
            r.spec_n_features() == old(self).spec_n_features(),
            r.spec_n_jobs() == old(self).spec_n_jobs(),
    {
        self.lowercase = value;
        HashingVectorizerParams {
            n_features: self.n_features,
            lowercase: self.lowercase,
            tokenizer: self.tokenizer.clone(),
            n_jobs: self.n_jobs,
        }
    }

    /// Replace the tokenizer.
    pub fn tokenizer(&mut self, value: T) -> (r: HashingVectorizerParams<T>)
        ensures
            final(self).spec_lowercase() == old(self).spec_lowercase(),
            final(self).spec_n_features() == old(self).spec_n_features(),
            final(self).spec_n_jobs() == old(self).spec_n_jobs(),
            r.spec_lowercase() == old(self).spec_lowercase(),
            r.spec_n_features() == old(self).spec_n_features(),
            r.spec_n_jobs() == old(self).spec_n_jobs(),
    {
        self.tokenizer = value;
        HashingVectorizerParams {
            n_features: self.n_features,
            lowercase: self.lowercase,
            tokenizer: self.tokenizer.clone(),
            n_jobs: self.n_jobs,
        }
    }

    /// Set the worker count.
    pub fn n_jobs(&mut self, value: usize) -> (r: HashingVectorizerParams<T>)
        ensures
            final(self).spec_lowercase() == old(self).spec_lowercase(),
            final(self).spec_n_features() == old(self).spec_n_features(),
            final(self).spec_n_jobs() == value,
            r.spec_lowercase() == old(self).spec_lowercase(),
            r.spec_n_features() == old(self).spec_n_features(),
            r.spec_n_jobs() == value,
    {
        self.n_jobs = value;
        HashingVectorizerParams {
            n_features: self.n_features,
            lowercase: self.lowercase,
            tokenizer: self.tokenizer.clone(),
            n_jobs: self.n_jobs,
        }
    }

    /// Build the vectorizer. Fails exactly when `n_jobs` is zero.
    pub fn build(&mut self) -> (r: Result<HashingVectorizer<T>, EstimatorErr>)
        ensures
            r is Ok <==> old(self).spec_n_jobs() >= 1,
            r matches Ok(v) ==> v.spec_n_features() == old(self).spec_n_features(),
            r matches Err(e) ==> e matches EstimatorErr::InvalidParams(_),
    {
        if self.n_jobs < 1 {
            return Err(EstimatorErr::InvalidParams("`n_jobs` must be at least 1".to_owned()));
        }
        Ok(
            HashingVectorizer {
                params: HashingVectorizerParams {
                    n_features: self.n_features,
                    lowercase: self.lowercase,
                    tokenizer: self.tokenizer.clone(),
                    n_jobs: self.n_jobs,
                },
            },
        )
    }
}

impl<T: Tokenizer + Clone + Default> Default for HashingVectorizerParams<T> {
    /// A hash space of 2^20 columns, lowercasing on, one worker.
    fn default() -> (r: HashingVectorizerParams<T>)
        ensures
            r.spec_n_features() == crate::DEFAULT_N_FEATURES,
            r.spec_lowercase() == true,
            r.spec_n_jobs() == 1,
    {
        HashingVectorizerParams {
            n_features: crate::DEFAULT_N_FEATURES,
            lowercase: true,
            tokenizer: T::default(),
            n_jobs: 1,
        }
    }
}

/// Hashing vectorizer: documents map to a fixed-width hash space; no
/// vocabulary exists and nothing is learned.
#[derive(Debug)]
pub struct HashingVectorizer<T> {
    params: HashingVectorizerParams<T>,
}

impl<T: Tokenizer + Clone> HashingVectorizer<T> {
    /// The width of the hash space.
    pub closed spec fn spec_n_features(&self) -> u64 {
        self.params.n_features
    }

    /// A vectorizer with the given tokenizer, the default hash width,
    /// lowercasing on, one worker.
    pub fn new(tokenizer: T) -> (r: HashingVectorizer<T>)
        ensures
            r.spec_n_features() == crate::DEFAULT_N_FEATURES,
    {
        HashingVectorizer {
            params: HashingVectorizerParams {
                n_features: crate::DEFAULT_N_FEATURES,
                lowercase: true,
                tokenizer,
                n_jobs: 1,
            },
        }
    }

    /// The number of columns every matrix this vectorizer builds has.
    pub fn n_features(&self) -> (r: u64)
        ensures
            r == self.spec_n_features(),
    {
        self.params.n_features
    }

    /// The vectorizer is stateless; fitting returns it unchanged.
    pub fn fit(self, _docs: &Vec<String>) -> (r: HashingVectorizer<T>)
        ensures
            r == self,
    {
        self
    }

    /// Turn documents into a CSR matrix over the hash space: each token's
    /// column is its fixed seeded hash modulo the width, rows sorted and
    /// duplicate buckets summed. One row per document, in order.
    pub fn transform(&self, docs: &Vec<String>) -> (r: CSRArray)
        ensures
            r.wf(),
            r.spec_rows() == docs@.len(),
    {
        let nf0 = self.params.n_features;
        let nf = if 1 <= nf0 && nf0 <= (usize::MAX as u64) {
            nf0
        } else {
            crate::DEFAULT_N_FEATURES
        };
        let tokenized = tokenize_documents(
            &self.params.tokenizer,
            self.params.lowercase,
            docs,
        );
        hash_rows(&tokenized, nf)
    }

    /// The vectorizer learns nothing, so this is `transform`.
    pub fn fit_transform(&self, docs: &Vec<String>) -> (r: CSRArray)
        ensures
            r.wf(),
            r.spec_rows() == docs@.len(),
    {
        self.transform(docs)
    }
}

impl<T: Tokenizer + Clone + Default> Default for HashingVectorizer<T> {
    /// A vectorizer over the tokenizer's default, with default
    /// parameters.
    fn default() -> (r: HashingVectorizer<T>)
        ensures
            r.spec_n_features() == crate::DEFAULT_N_FEATURES,
    {
        HashingVectorizer {
            params: HashingVectorizerParams {
                n_features: crate::DEFAULT_N_FEATURES,
                lowercase: true,
                tokenizer: T::default(),
                n_jobs: 1,
            },
        }
    }
}

} // verus!
