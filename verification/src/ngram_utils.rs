//! K-skip-n-gram generation.
//!
//! `SampleCombinations` enumerates index combinations in lexicographic
//! order; the k-skip-n-gram generator slides a window of size
//! `max_n + max_k` over a token stream and emits, for every window
//! position and every gram length, the skip-limited combinations of
//! window positions, with optional padding phases at both ends. The
//! whole emission order is pinned down by the `kskip_spec` family of
//! specification functions, phase by phase.

use vstd::prelude::*;

use crate::errors::EstimatorErr;

verus! {

/// All combinations of `n` strictly increasing indices drawn from
/// `[lo, max_i]`, in lexicographic order: first the combinations that
/// start with `lo`, then those that start higher.
pub open spec fn combos_from(lo: usize, max_i: usize, n: nat) -> Seq<Seq<usize>>
    recommends
        max_i < usize::MAX,
    decreases n, max_i + 1 - lo,
{
    if n == 0 {
        seq![Seq::<usize>::empty()]
    } else if max_i + 1 - lo < n {
        Seq::<Seq<usize>>::empty()
    } else if lo == usize::MAX {
        seq![seq![lo]]
    } else {
        combos_from((lo + 1) as usize, max_i, (n - 1) as nat).map_values(
            |s: Seq<usize>| seq![lo] + s,
        ) + combos_from((lo + 1) as usize, max_i, n)
    }
}

/// The binomial coefficient: the number of ways to choose `k` from `m`.
pub open spec fn n_choose_k(m: int, k: nat) -> nat
    decreases k, m,
{
    if k == 0 {
        1
    } else if m < k {
        0
    } else {
        n_choose_k(m - 1, (k - 1) as nat) + n_choose_k(m - 1, k)
    }
}

/// `combos_from` has exactly `C(max_i+1-lo, n)` entries.
pub proof fn lemma_combos_len(lo: usize, max_i: usize, n: nat)
    requires
        max_i < usize::MAX,
    ensures
        combos_from(lo, max_i, n).len() == n_choose_k(max_i + 1 - lo, n),
    decreases n, max_i + 1 - lo,
{
    if n == 0 {
    } else if max_i + 1 - lo < n {
    } else {
        lemma_combos_len((lo + 1) as usize, max_i, (n - 1) as nat);
        lemma_combos_len((lo + 1) as usize, max_i, n);
    }
}

/// Choosing at most everything is always possible in at least one way.
pub proof fn lemma_choose_pos(m: int, k: nat)
    requires
        m >= k,
    ensures
        n_choose_k(m, k) >= 1,
    decreases k,
{
    if k == 0 {
    } else {
        lemma_choose_pos(m - 1, (k - 1) as nat);
    }
}

/// Every entry of `combos_from` is a strictly increasing sequence of `n`
/// indices between `lo` and `max_i`.
pub open spec fn valid_combo(v: Seq<usize>, lo: usize, max_i: usize, n: nat) -> bool {
    &&& v.len() == n
    &&& forall|q: int| 0 <= q < v.len() ==> lo <= #[trigger] v[q] <= max_i
    &&& forall|q1: int, q2: int| 0 <= q1 < q2 < v.len() ==> v[q1] < v[q2]
}

pub proof fn lemma_combos_valid(lo: usize, max_i: usize, n: nat)
    requires
        max_i < usize::MAX,
    ensures
        forall|i: int|
            0 <= i < combos_from(lo, max_i, n).len() ==> valid_combo(
                #[trigger] combos_from(lo, max_i, n)[i],
                lo,
                max_i,
                n,
            ),
    decreases n, max_i + 1 - lo,
{
    let cs = combos_from(lo, max_i, n);
    if n == 0 {
        assert(valid_combo(cs[0], lo, max_i, n));
    } else if max_i + 1 - lo < n {
    } else {
        let lo1 = (lo + 1) as usize;
        lemma_combos_valid(lo1, max_i, (n - 1) as nat);
        lemma_combos_valid(lo1, max_i, n);
        let pre = combos_from(lo1, max_i, (n - 1) as nat).map_values(
            |s: Seq<usize>| seq![lo] + s,
        );
        let rest = combos_from(lo1, max_i, n);
        assert forall|i: int| 0 <= i < cs.len() implies valid_combo(
            #[trigger] cs[i],
            lo,
            max_i,
            n,
        ) by {
            if i < pre.len() {
                let s = combos_from(lo1, max_i, (n - 1) as nat)[i];
                assert(valid_combo(s, lo1, max_i, (n - 1) as nat));
                assert(cs[i] == seq![lo] + s);
                assert(cs[i][0] == lo);
                assert(forall|q: int| 1 <= q < cs[i].len() ==> cs[i][q] == s[q - 1]);
            } else {
                assert(cs[i] == rest[i - pre.len()]);
                assert(valid_combo(cs[i], lo1, max_i, n));
            }
        }
    }
}

/// When exactly `n` indices are available the one combination is the
/// full run `[lo, lo+n)`.
pub proof fn lemma_combos_full_range(lo: usize, max_i: usize, n: nat)
    requires
        max_i < usize::MAX,
        max_i + 1 - lo == n,
    ensures
        combos_from(lo, max_i, n) =~= seq![Seq::new(n, |t: int| (lo + t) as usize)],
    decreases n,
{
    if n == 0 {
        assert(combos_from(lo, max_i, n) =~= seq![Seq::<usize>::empty()]);
        assert(Seq::new(0nat, |t: int| (lo + t) as usize) =~= Seq::<usize>::empty());
    } else {
        let lo1 = (lo + 1) as usize;
        lemma_combos_full_range(lo1, max_i, (n - 1) as nat);
        assert(combos_from(lo1, max_i, n).len() == 0) by {
            lemma_combos_len(lo1, max_i, n);
        }
        assert(combos_from(lo, max_i, n) =~= combos_from(lo1, max_i, (n - 1) as nat).map_values(
            |s: Seq<usize>| seq![lo] + s,
        ));
        assert(combos_from(lo, max_i, n)[0] =~= seq![lo] + Seq::new(
            (n - 1) as nat,
            |t: int| (lo1 + t) as usize,
        ));
        assert(seq![lo] + Seq::new((n - 1) as nat, |t: int| (lo1 + t) as usize) =~= Seq::new(
            n,
            |t: int| (lo + t) as usize,
        ));
    }
}

/// Strict lexicographic order on index sequences.
pub open spec fn combo_lt(a: Seq<usize>, b: Seq<usize>) -> bool
    decreases a.len(),
{
    if b.len() == 0 {
        false
    } else if a.len() == 0 {
        true
    } else if a[0] != b[0] {
        a[0] < b[0]
    } else {
        combo_lt(a.drop_first(), b.drop_first())
    }
}

/// The combinations come out in strictly increasing lexicographic order.
pub proof fn lemma_combos_sorted(lo: usize, max_i: usize, n: nat)
    requires
        max_i < usize::MAX,
    ensures
        forall|i: int, j: int|
            0 <= i < j < combos_from(lo, max_i, n).len() ==> combo_lt(
                #[trigger] combos_from(lo, max_i, n)[i],
                #[trigger] combos_from(lo, max_i, n)[j],
            ),
    decreases n, max_i + 1 - lo,
{
    let cs = combos_from(lo, max_i, n);
    if n == 0 {
    } else if max_i + 1 - lo < n {
    } else {
        let lo1 = (lo + 1) as usize;
        lemma_combos_sorted(lo1, max_i, (n - 1) as nat);
        lemma_combos_sorted(lo1, max_i, n);
        lemma_combos_valid(lo1, max_i, n);
        let inner = combos_from(lo1, max_i, (n - 1) as nat);
        let pre = inner.map_values(|s: Seq<usize>| seq![lo] + s);
        let rest = combos_from(lo1, max_i, n);
        assert forall|i: int, j: int| 0 <= i < j < cs.len() implies combo_lt(
            #[trigger] cs[i],
            #[trigger] cs[j],
        ) by {
            if j < pre.len() {
                assert(cs[i] == seq![lo] + inner[i]);
                assert(cs[j] == seq![lo] + inner[j]);
                assert(combo_lt(inner[i], inner[j]));
                assert((seq![lo] + inner[i]).drop_first() =~= inner[i]);
                assert((seq![lo] + inner[j]).drop_first() =~= inner[j]);
                assert((seq![lo] + inner[i])[0] == lo);
                assert((seq![lo] + inner[j])[0] == lo);
            } else if i >= pre.len() {
                assert(cs[i] == rest[i - pre.len()]);
                assert(cs[j] == rest[j - pre.len()]);
            } else {
                assert(cs[i] == seq![lo] + inner[i]);
                assert(cs[j] == rest[j - pre.len()]);
                assert(valid_combo(cs[j], lo1, max_i, n));
                assert(cs[j].len() == n >= 1);
                assert(cs[j][0] >= lo1);
                assert(cs[i][0] == lo);
            }
        }
    }
}

/// The list an iterator with the given parameters walks: with `fix_0`
/// the head is pinned to index zero and the rest vary over `[1, max_i]`;
/// without it all `n` indices vary over `[0, max_i]`.
pub open spec fn sc_full(fix_0: bool, max_i: usize, n: usize) -> Seq<Seq<usize>> {
    if fix_0 {
        combos_from(1, max_i, (n - 1) as nat).map_values(|s: Seq<usize>| seq![0usize] + s)
    } else {
        combos_from(0, max_i, n as nat)
    }
}

/// Every entry of `sc_full` stays within `[0, max_i]` and has length `n`.
pub proof fn lemma_sc_full_valid(fix_0: bool, max_i: usize, n: usize)
    requires
        max_i < usize::MAX,
        fix_0 ==> n >= 1,
    ensures
        forall|i: int|
            0 <= i < sc_full(fix_0, max_i, n).len() ==> {
                let v = #[trigger] sc_full(fix_0, max_i, n)[i];
                v.len() == n && forall|q: int| 0 <= q < v.len() ==> #[trigger] v[q] <= max_i
            },
{
    if fix_0 {
        lemma_combos_valid(1, max_i, (n - 1) as nat);
        let inner = combos_from(1, max_i, (n - 1) as nat);
        assert forall|i: int| 0 <= i < sc_full(fix_0, max_i, n).len() implies {
            let v = #[trigger] sc_full(fix_0, max_i, n)[i];
            v.len() == n && forall|q: int| 0 <= q < v.len() ==> #[trigger] v[q] <= max_i
        } by {
            let v = sc_full(fix_0, max_i, n)[i];
            assert(v == seq![0usize] + inner[i]);
            assert(valid_combo(inner[i], 1, max_i, (n - 1) as nat));
            assert(forall|q: int| 1 <= q < v.len() ==> v[q] == inner[i][q - 1]);
        }
    } else {
        lemma_combos_valid(0, max_i, n as nat);
    }
}

/// Copy a list of indices.
fn clone_ids(v: &Vec<usize>) -> (r: Vec<usize>)
    ensures
        r@ == v@,
{
    let mut out: Vec<usize> = Vec::new();
    let mut i: usize = 0;
    while i < v.len()
        invariant
            i <= v@.len(),
            out@ =~= v@.take(i as int),
        decreases v@.len() - i,
    {
        out.push(v[i]);
        assert(out@ =~= v@.take(i + 1));
        i += 1;
    }
    assert(v@.take(v@.len() as int) =~= v@);
    out
}

/// Materialize `combos_from(lo, max_i, n)`.
fn gen_combos(lo: usize, max_i: usize, n: usize) -> (r: Vec<Vec<usize>>)
    requires
        max_i < usize::MAX,
        lo <= max_i + 1,
    ensures
        r.deep_view() == combos_from(lo, max_i, n as nat),
    decreases n, max_i + 1 - lo,
{
    if n == 0 {
        let mut r: Vec<Vec<usize>> = Vec::new();
        r.push(Vec::new());
        assert(r.deep_view() =~~= combos_from(lo, max_i, 0));
        r
    } else if lo > max_i || max_i - lo < n - 1 {
        let r: Vec<Vec<usize>> = Vec::new();
        assert(max_i + 1 - lo < n);
        assert(r.deep_view() =~~= combos_from(lo, max_i, n as nat));
        r
    } else {
        let ghost pre_spec = combos_from((lo + 1) as usize, max_i, (n - 1) as nat).map_values(
            |s: Seq<usize>| seq![lo] + s,
        );
        let sub1 = gen_combos(lo + 1, max_i, n - 1);
        let mut r: Vec<Vec<usize>> = Vec::new();
        let mut i: usize = 0;
        while i < sub1.len()
            invariant
                max_i < usize::MAX,
                lo < usize::MAX,
                i <= sub1@.len(),
                sub1.deep_view() == combos_from((lo + 1) as usize, max_i, (n - 1) as nat),
                sub1.deep_view().len() == sub1@.len(),
                pre_spec == combos_from((lo + 1) as usize, max_i, (n - 1) as nat).map_values(
                    |s: Seq<usize>| seq![lo] + s,
                ),
                r.deep_view() =~= pre_spec.take(i as int),
            decreases sub1@.len() - i,
        {
            let mut c: Vec<usize> = Vec::new();
            c.push(lo);
            let mut q: usize = 0;
            while q < sub1[i].len()
                invariant
                    i < sub1@.len(),
                    q <= sub1@[i as int]@.len(),
                    c@ =~= seq![lo] + sub1@[i as int]@.take(q as int),
                decreases sub1@[i as int]@.len() - q,
            {
                c.push(sub1[i][q]);
                assert(c@ =~= seq![lo] + sub1@[i as int]@.take(q + 1));
                q += 1;
            }
            proof {
                let s1i = sub1@[i as int]@;
                assert(s1i.take(s1i.len() as int) =~= s1i);
                assert(s1i =~= sub1.deep_view()[i as int]);
                assert(c@ =~= seq![lo] + sub1.deep_view()[i as int]);
            }
            r.push(c);
            proof {
                assert(c@ =~= pre_spec[i as int]);
                assert(pre_spec.take(i + 1) =~= pre_spec.take(i as int).push(
                    pre_spec[i as int],
                ));
                assert(r.deep_view() =~~= pre_spec.take(i + 1));
            }
            i += 1;
        }
        assert(pre_spec.take(pre_spec.len() as int) =~= pre_spec);
        let sub2 = gen_combos(lo + 1, max_i, n);
        let mut j: usize = 0;
        while j < sub2.len()
            invariant
                max_i < usize::MAX,
                lo < usize::MAX,
                j <= sub2@.len(),
                sub2.deep_view() == combos_from((lo + 1) as usize, max_i, n as nat),
                sub2.deep_view().len() == sub2@.len(),
                pre_spec == combos_from((lo + 1) as usize, max_i, (n - 1) as nat).map_values(
                    |s: Seq<usize>| seq![lo] + s,
                ),
                r.deep_view() =~= pre_spec + sub2.deep_view().take(j as int),
            decreases sub2@.len() - j,
        {
            let c = clone_ids(&sub2[j]);
            proof {
                assert(sub2@[j as int]@ =~= sub2.deep_view()[j as int]);
            }
            r.push(c);
            proof {
                assert(sub2.deep_view().take(j + 1) =~= sub2.deep_view().take(j as int).push(
                    sub2.deep_view()[j as int],
                ));
                assert(pre_spec + sub2.deep_view().take(j + 1) =~= (pre_spec
                    + sub2.deep_view().take(j as int)).push(sub2.deep_view()[j as int]));
                assert(r.deep_view() =~~= pre_spec + sub2.deep_view().take(j + 1));
            }
            j += 1;
        }
        proof {
            assert(sub2.deep_view().take(sub2.deep_view().len() as int) =~= sub2.deep_view());
            assert(r.deep_view() =~= combos_from(lo, max_i, n as nat));
        }
        r
    }
}

/// Materialize the full list an iterator over `(fix_0, max_i, n)` walks.
fn all_combos(fix_0: bool, max_i: usize, n: usize) -> (r: Vec<Vec<usize>>)
    requires
        max_i < usize::MAX,
        fix_0 ==> n >= 1,
        max_i + 1 >= n,
    ensures
        r.deep_view() == sc_full(fix_0, max_i, n),
{
    if fix_0 {
        let ghost spec_list = combos_from(1, max_i, (n - 1) as nat).map_values(
            |s: Seq<usize>| seq![0usize] + s,
        );
        let sub = gen_combos(1, max_i, n - 1);
        let mut r: Vec<Vec<usize>> = Vec::new();
        let mut i: usize = 0;
        while i < sub.len()
            invariant
                max_i < usize::MAX,
                i <= sub@.len(),
                sub.deep_view() == combos_from(1, max_i, (n - 1) as nat),
                sub.deep_view().len() == sub@.len(),
                spec_list == combos_from(1, max_i, (n - 1) as nat).map_values(
                    |s: Seq<usize>| seq![0usize] + s,
                ),
                r.deep_view() =~= spec_list.take(i as int),
            decreases sub@.len() - i,
        {
            let mut c: Vec<usize> = Vec::new();
            c.push(0);
            let mut q: usize = 0;
            while q < sub[i].len()
                invariant
                    i < sub@.len(),
                    q <= sub@[i as int]@.len(),
                    c@ =~= seq![0usize] + sub@[i as int]@.take(q as int),
                decreases sub@[i as int]@.len() - q,
            {
                c.push(sub[i][q]);
                assert(c@ =~= seq![0usize] + sub@[i as int]@.take(q + 1));
                q += 1;
            }
            proof {
                let si = sub@[i as int]@;
                assert(si.take(si.len() as int) =~= si);
                assert(si =~= sub.deep_view()[i as int]);
                assert(c@ =~= seq![0usize] + sub.deep_view()[i as int]);
            }
            r.push(c);
            proof {
                assert(c@ =~= spec_list[i as int]);
                assert(spec_list.take(i + 1) =~= spec_list.take(i as int).push(
                    spec_list[i as int],
                ));
                assert(r.deep_view() =~~= spec_list.take(i + 1));
            }
            i += 1;
        }
        proof {
            assert(spec_list.take(spec_list.len() as int) =~= spec_list);
        }
        r
    } else {
        gen_combos(0, max_i, n)
    }
}

/// An iterator over the combinations of `n` indices drawn from
/// `[0, max_i]`, in lexicographic order, with the first index optionally
/// pinned to zero.
pub struct SampleCombinations {
    all: Vec<Vec<usize>>,
    idx: usize,
}

impl SampleCombinations {
    /// The full list this iterator walks.
    pub closed spec fn spec_all(&self) -> Seq<Seq<usize>> {
        self.all.deep_view()
    }

    /// How many combinations have been handed out already.
    pub closed spec fn spec_idx(&self) -> int {
        self.idx as int
    }

    /// Build the iterator. Fails exactly when fewer than `n` indices are
    /// available.
    pub fn new(fix_0: bool, max_i: usize, n: usize) -> (r: Result<
        SampleCombinations,
        EstimatorErr,
    >)
        requires
            max_i < usize::MAX,
            fix_0 ==> n >= 1,
        ensures
            r is Ok <==> max_i + 1 >= n,
            r matches Ok(sc) ==> sc.spec_all() == sc_full(fix_0, max_i, n) && sc.spec_idx() == 0,
            r matches Err(e) ==> e matches EstimatorErr::InvalidParams(_),
    {
        if n > 0 && max_i < n - 1 {
            return Err(
                EstimatorErr::InvalidParams("`max_i`+1 must not be less than `n`".to_owned()),
            );
        }
        let all = all_combos(fix_0, max_i, n);
        Ok(SampleCombinations { all, idx: 0 })
    }

    /// A dummy iterator that yields nothing.
    pub fn new_empty() -> (r: SampleCombinations)
        ensures
            r.spec_all() =~= Seq::<Seq<usize>>::empty(),
            r.spec_idx() == 0,
    {
        SampleCombinations { all: Vec::new(), idx: 0 }
    }

    /// The next combination, or `None` once the list is exhausted.
    pub fn next(&mut self) -> (r: Option<Vec<usize>>)
        ensures
            final(self).spec_all() == old(self).spec_all(),
            old(self).spec_idx() < old(self).spec_all().len() ==> {
                &&& r matches Some(v) && v@ == old(self).spec_all()[old(self).spec_idx()]
                &&& final(self).spec_idx() == old(self).spec_idx() + 1
            },
            old(self).spec_idx() >= old(self).spec_all().len() ==> r is None
                && final(self).spec_idx() == old(self).spec_idx(),
    {
        if self.idx < self.all.len() {
            let v = clone_ids(&self.all[self.idx]);
            assert(self.all@[self.idx as int]@ =~= self.spec_all()[self.idx as int]);
            self.idx += 1;
            Some(v)
        } else {
            None
        }
    }

    /// Every remaining combination, in order.
    pub fn collect_all(&mut self) -> (r: Vec<Vec<usize>>)
        requires
            old(self).spec_idx() <= old(self).spec_all().len(),
        ensures
            r.deep_view() == old(self).spec_all().skip(old(self).spec_idx()),
            final(self).spec_all() == old(self).spec_all(),
            final(self).spec_idx() == old(self).spec_all().len(),
    {
        let mut out: Vec<Vec<usize>> = Vec::new();
        while self.idx < self.all.len()
            invariant
                self.all == old(self).all,
                old(self).spec_idx() <= self.idx as int <= self.spec_all().len(),
                self.spec_all().len() == self.all@.len(),
                out.deep_view() =~= self.spec_all().subrange(
                    old(self).spec_idx(),
                    self.idx as int,
                ),
            decreases self.all@.len() - self.idx,
        {
            let v = clone_ids(&self.all[self.idx]);
            assert(self.all@[self.idx as int]@ =~= self.spec_all()[self.idx as int]);
            out.push(v);
            proof {
                assert(self.spec_all().subrange(old(self).spec_idx(), self.idx + 1)
                    =~= self.spec_all().subrange(old(self).spec_idx(), self.idx as int).push(
                    self.spec_all()[self.idx as int],
                ));
                assert(out.deep_view() =~~= self.spec_all().subrange(
                    old(self).spec_idx(),
                    self.idx + 1,
                ));
            }
            self.idx += 1;
        }
        proof {
            assert(self.spec_all().subrange(old(self).spec_idx(), self.spec_all().len() as int)
                =~= self.spec_all().skip(old(self).spec_idx()));
        }
        out
    }
}

/// The first and last entries of a non-empty combination list: the
/// packed run at `lo` and the packed run ending at `max_i`.
pub proof fn lemma_combos_first_last(lo: usize, max_i: usize, n: nat)
    requires
        max_i < usize::MAX,
        n >= 1,
        max_i + 1 - lo >= n,
    ensures
        combos_from(lo, max_i, n).len() >= 1,
        combos_from(lo, max_i, n).first() =~= Seq::new(n, |t: int| (lo + t) as usize),
        combos_from(lo, max_i, n).last() =~= Seq::new(n, |t: int| (max_i + 1 - n + t) as usize),
    decreases n, max_i + 1 - lo,
{
    let cs = combos_from(lo, max_i, n);
    let lo1 = (lo + 1) as usize;
    let inner = combos_from(lo1, max_i, (n - 1) as nat);
    let pre = inner.map_values(|s: Seq<usize>| seq![lo] + s);
    let rest = combos_from(lo1, max_i, n);
    assert(cs == pre + rest);
    assert(pre.len() >= 1) by {
        lemma_combos_len(lo1, max_i, (n - 1) as nat);
        lemma_choose_pos(max_i + 1 - lo1, (n - 1) as nat);
    }
    // First entry: lo followed by the packed run of the tail.
    if n == 1 {
        assert(inner =~= seq![Seq::<usize>::empty()]);
        assert(cs.first() =~= seq![lo]);
        assert(seq![lo] =~= Seq::new(1, |t: int| (lo + t) as usize));
    } else {
        lemma_combos_first_last(lo1, max_i, (n - 1) as nat);
        assert(cs.first() == seq![lo] + inner.first());
        assert(seq![lo] + Seq::new((n - 1) as nat, |t: int| (lo1 + t) as usize) =~= Seq::new(
            n,
            |t: int| (lo + t) as usize,
        ));
    }
    // Last entry: from the tail block when it is non-empty, else the
    // packed run ending at `max_i` inside the head block.
    if max_i + 1 - lo1 >= n {
        lemma_combos_first_last(lo1, max_i, n);
        assert(rest.len() >= 1);
        assert(cs.last() == rest.last());
    } else {
        assert(max_i + 1 - lo == n);
        assert(rest.len() == 0) by {
            lemma_combos_len(lo1, max_i, n);
        }
        assert(cs.last() == pre.last());
        if n == 1 {
            assert(inner =~= seq![Seq::<usize>::empty()]);
            assert(cs.last() =~= seq![lo]);
            assert(seq![lo] =~= Seq::new(1, |t: int| (max_i + 1 - 1 + t) as usize));
        } else {
            lemma_combos_first_last(lo1, max_i, (n - 1) as nat);
            assert(cs.last() == seq![lo] + inner.last());
            assert(seq![lo] + Seq::new((n - 1) as nat, |t: int| (max_i + 1 - (n - 1) + t) as usize)
                =~= Seq::new(n, |t: int| (max_i + 1 - n + t) as usize));
        }
    }
}

/// With `max_i + 1` exactly `n`, one combination exists: the full range.
pub proof fn lemma_sc_full_single(fix_0: bool, max_i: usize, n: usize)
    requires
        max_i < usize::MAX,
        n >= 1,
        max_i + 1 == n,
    ensures
        sc_full(fix_0, max_i, n) =~= seq![Seq::new(n as nat, |t: int| t as usize)],
{
    if fix_0 {
        lemma_combos_full_range(1, max_i, (n - 1) as nat);
        let inner = combos_from(1, max_i, (n - 1) as nat);
        assert(inner =~= seq![Seq::new((n - 1) as nat, |t: int| (1 + t) as usize)]);
        assert(sc_full(fix_0, max_i, n)[0] == seq![0usize] + inner[0]);
        assert(seq![0usize] + Seq::new((n - 1) as nat, |t: int| (1 + t) as usize) =~= Seq::new(
            n as nat,
            |t: int| t as usize,
        ));
        assert(sc_full(fix_0, max_i, n).len() == 1);
    } else {
        lemma_combos_full_range(0, max_i, n as nat);
        assert(combos_from(0, max_i, n as nat)[0] =~= Seq::new(n as nat, |t: int| (0 + t) as usize));
        assert(Seq::new(n as nat, |t: int| (0 + t) as usize) =~= Seq::new(
            n as nat,
            |t: int| t as usize,
        ));
    }
}

/// The list `SampleCombinations(fix_0 = false, max_i, n)` walks holds
/// exactly `C(max_i+1, n)` combinations of `n` strictly increasing
/// indices out of `[0, max_i]`, in strictly increasing lexicographic
/// order; the first is `[0, ..., n-1]` and the last is
/// `[max_i-n+1, ..., max_i]`.
pub proof fn lemma_sample_combinations_complete(max_i: usize, n: usize)
    requires
        max_i < usize::MAX,
        1 <= n,
        n <= max_i + 1,
    ensures
        sc_full(false, max_i, n).len() == n_choose_k(max_i + 1, n as nat),
        forall|i: int|
            0 <= i < sc_full(false, max_i, n).len() ==> valid_combo(
                #[trigger] sc_full(false, max_i, n)[i],
                0,
                max_i,
                n as nat,
            ),
        forall|i: int, j: int|
            0 <= i < j < sc_full(false, max_i, n).len() ==> combo_lt(
                #[trigger] sc_full(false, max_i, n)[i],
                #[trigger] sc_full(false, max_i, n)[j],
            ),
        sc_full(false, max_i, n).first() =~= Seq::new(n as nat, |t: int| t as usize),
        sc_full(false, max_i, n).last() =~= Seq::new(
            n as nat,
            |t: int| (max_i + 1 - n + t) as usize,
        ),
{
    lemma_combos_len(0, max_i, n as nat);
    lemma_combos_valid(0, max_i, n as nat);
    lemma_combos_sorted(0, max_i, n as nat);
    lemma_combos_first_last(0, max_i, n as nat);
    assert(Seq::new(n as nat, |t: int| (0 + t) as usize) =~= Seq::new(
        n as nat,
        |t: int| t as usize,
    ));
}

/// The view of an optional pad token.
pub open spec fn opt_view(o: Option<&str>) -> Option<Seq<char>> {
    match o {
        Some(s) => Some(s@),
        None => None,
    }
}

/// The tokens of `tv` that a combination selects, offset by `base`.
pub open spec fn pick(tv: Seq<Seq<char>>, base: int, c: Seq<usize>) -> Seq<Seq<char>> {
    c.map_values(|i: usize| tv[base + i])
}

/// `p` copies of the pad token.
pub open spec fn pad_seq(p: int, pad: Seq<char>) -> Seq<Seq<char>> {
    Seq::new(p as nat, |_t: int| pad)
}

/// Pad-left grams for one `(n, p)` pair: `p` pads, then a combination of
/// `n - p` window positions within the skip budget.
pub open spec fn pl_block(
    tv: Seq<Seq<char>>,
    n: usize,
    p: usize,
    k: usize,
    pad: Seq<char>,
) -> Seq<Seq<Seq<char>>> {
    sc_full(false, ((n + k) - p - 1) as usize, (n - p) as usize).map_values(
        |c: Seq<usize>| pad_seq(p as int, pad) + pick(tv, 0, c),
    )
}

/// Pad-left grams for gram length `n`, padding amounts `p` down to 1.
pub open spec fn pl_for_n(
    tv: Seq<Seq<char>>,
    n: usize,
    k: usize,
    pad: Seq<char>,
    p: int,
) -> Seq<Seq<Seq<char>>>
    decreases p,
{
    if p < 1 {
        Seq::<Seq<Seq<char>>>::empty()
    } else {
        pl_block(tv, n, p as usize, k, pad) + pl_for_n(tv, n, k, pad, p - 1)
    }
}

/// Pad-left grams for gram lengths `n` up to `max_n`.
pub open spec fn pl_phase(
    tv: Seq<Seq<char>>,
    max_n: usize,
    k: usize,
    pad: Seq<char>,
    n: int,
) -> Seq<Seq<Seq<char>>>
    decreases max_n + 1 - n,
{
    if n > max_n {
        Seq::<Seq<Seq<char>>>::empty()
    } else {
        pl_for_n(tv, n as usize, k, pad, n - 1) + pl_phase(tv, max_n, k, pad, n + 1)
    }
}

/// The whole pad-left phase: entered only with a pad token and
/// `max_n > 1`, gram lengths from `max(min_n, 2)`.
pub open spec fn pad_left_part(
    tv: Seq<Seq<char>>,
    min_n: usize,
    max_n: usize,
    k: usize,
    pl: Option<Seq<char>>,
) -> Seq<Seq<Seq<char>>> {
    match pl {
        Some(pad) => if max_n > 1 {
            pl_phase(tv, max_n, k, pad, if min_n >= 2 { min_n as int } else { 2 })
        } else {
            Seq::<Seq<Seq<char>>>::empty()
        },
        None => Seq::<Seq<Seq<char>>>::empty(),
    }
}

/// Main grams at one window position for one gram length: combinations
/// anchored at the window start, over the skip budget.
pub open spec fn main_block(tv: Seq<Seq<char>>, start: int, n: usize, k: usize) -> Seq<
    Seq<Seq<char>>,
> {
    sc_full(true, ((n + k) - 1) as usize, n).map_values(|c: Seq<usize>| pick(tv, start, c))
}

/// Main grams at one window position, lengths `n` up to `max_n`.
pub open spec fn main_for_start(
    tv: Seq<Seq<char>>,
    start: int,
    max_n: usize,
    k: usize,
    n: int,
) -> Seq<Seq<Seq<char>>>
    decreases max_n + 1 - n,
{
    if n > max_n {
        Seq::<Seq<Seq<char>>>::empty()
    } else {
        main_block(tv, start, n as usize, k) + main_for_start(tv, start, max_n, k, n + 1)
    }
}

/// The whole main phase: every window position from `start` on.
pub open spec fn main_phase(
    tv: Seq<Seq<char>>,
    min_n: usize,
    max_n: usize,
    k: usize,
    w: usize,
    start: int,
) -> Seq<Seq<Seq<char>>>
    decreases tv.len() - w - start + 1,
{
    if start > tv.len() - w {
        Seq::<Seq<Seq<char>>>::empty()
    } else {
        main_for_start(tv, start, max_n, k, min_n as int) + main_phase(
            tv,
            min_n,
            max_n,
            k,
            w,
            start + 1,
        )
    }
}

/// The skip budget once the stream has ended and the effective window
/// shrank to `w - offset` items.
pub open spec fn me_k(w: usize, offset: int, n: usize, k: usize) -> usize {
    if w - offset > n {
        if k <= w - offset - n {
            k
        } else {
            ((w - offset) - n) as usize
        }
    } else {
        0
    }
}

/// Tail grams for one `(offset, n)` pair.
pub open spec fn me_block(tv: Seq<Seq<char>>, w: usize, offset: int, n: usize, k: usize) -> Seq<
    Seq<Seq<char>>,
> {
    sc_full(true, ((n + me_k(w, offset, n, k)) - 1) as usize, n).map_values(
        |c: Seq<usize>| pick(tv, tv.len() - w + offset, c),
    )
}

/// Tail grams at one offset, lengths `n` up to what still fits.
pub open spec fn me_for_offset(
    tv: Seq<Seq<char>>,
    w: usize,
    offset: int,
    max_n: usize,
    k: usize,
    n: int,
) -> Seq<Seq<Seq<char>>>
    decreases max_n + 1 - n,
{
    let lim = if max_n <= w - offset {
        max_n as int
    } else {
        w - offset
    };
    if n > lim {
        Seq::<Seq<Seq<char>>>::empty()
    } else {
        me_block(tv, w, offset, n as usize, k) + me_for_offset(tv, w, offset, max_n, k, n + 1)
    }
}

/// The whole tail phase: offsets from 1 while more than `min_n` items
/// remain.
pub open spec fn me_phase(
    tv: Seq<Seq<char>>,
    w: usize,
    min_n: usize,
    max_n: usize,
    k: usize,
    offset: int,
) -> Seq<Seq<Seq<char>>>
    decreases w - min_n - offset + 1,
{
    if offset > w - min_n {
        Seq::<Seq<Seq<char>>>::empty()
    } else {
        me_for_offset(tv, w, offset, max_n, k, min_n as int) + me_phase(
            tv,
            w,
            min_n,
            max_n,
            k,
            offset + 1,
        )
    }
}

/// The tail phase runs only when some gram other than the full window is
/// possible.
pub open spec fn main_end_part(
    tv: Seq<Seq<char>>,
    min_n: usize,
    max_n: usize,
    k: usize,
    w: usize,
) -> Seq<Seq<Seq<char>>> {
    if (min_n != max_n || k > 0) && w > 1 {
        me_phase(tv, w, min_n, max_n, k, 1)
    } else {
        Seq::<Seq<Seq<char>>>::empty()
    }
}

/// One pad-right gram: the combination mirrored to the end of the
/// stream, reversed back into stream order, then `p` pads.
pub open spec fn pr_gram(tv: Seq<Seq<char>>, c: Seq<usize>, p: usize, pad: Seq<char>) -> Seq<
    Seq<char>,
> {
    Seq::new(c.len(), |t: int| tv[tv.len() - 1 - c[c.len() - 1 - t]]) + pad_seq(p as int, pad)
}

/// Pad-right grams for one `(n, p)` pair.
pub open spec fn pr_block(
    tv: Seq<Seq<char>>,
    n: usize,
    p: usize,
    k: usize,
    pad: Seq<char>,
) -> Seq<Seq<Seq<char>>> {
    sc_full(false, ((n + k) - p - 1) as usize, (n - p) as usize).map_values(
        |c: Seq<usize>| pr_gram(tv, c, p, pad),
    )
}

/// Pad-right grams for gram length `n`, padding amounts `p` up to `n-1`.
pub open spec fn pr_for_n(
    tv: Seq<Seq<char>>,
    n: usize,
    k: usize,
    pad: Seq<char>,
    p: int,
) -> Seq<Seq<Seq<char>>>
    decreases n - p,
{
    if p > n - 1 {
        Seq::<Seq<Seq<char>>>::empty()
    } else {
        pr_block(tv, n, p as usize, k, pad) + pr_for_n(tv, n, k, pad, p + 1)
    }
}

/// Pad-right grams for gram lengths `n` up to `max_n`.
pub open spec fn pr_phase(
    tv: Seq<Seq<char>>,
    max_n: usize,
    k: usize,
    pad: Seq<char>,
    n: int,
) -> Seq<Seq<Seq<char>>>
    decreases max_n + 1 - n,
{
    if n > max_n {
        Seq::<Seq<Seq<char>>>::empty()
    } else {
        pr_for_n(tv, n as usize, k, pad, 1) + pr_phase(tv, max_n, k, pad, n + 1)
    }
}

/// The whole pad-right phase.
pub open spec fn pad_right_part(
    tv: Seq<Seq<char>>,
    min_n: usize,
    max_n: usize,
    k: usize,
    pr: Option<Seq<char>>,
) -> Seq<Seq<Seq<char>>> {
    match pr {
        Some(pad) => if max_n > 1 {
            pr_phase(tv, max_n, k, pad, if min_n >= 2 { min_n as int } else { 2 })
        } else {
            Seq::<Seq<Seq<char>>>::empty()
        },
        None => Seq::<Seq<Seq<char>>>::empty(),
    }
}

/// Everything the generator emits, phase after phase, for an effective
/// skip budget `k` and window size `w`.
pub open spec fn phases_spec(
    tv: Seq<Seq<char>>,
    min_n: usize,
    max_n: usize,
    k: usize,
    w: usize,
    pl: Option<Seq<char>>,
    pr: Option<Seq<char>>,
) -> Seq<Seq<Seq<char>>> {
    pad_left_part(tv, min_n, max_n, k, pl) + main_phase(tv, min_n, max_n, k, w, 0)
        + main_end_part(tv, min_n, max_n, k, w) + pad_right_part(tv, min_n, max_n, k, pr)
}

/// Everything the k-skip-n-gram generator emits. With `max_n` of one the
/// skip budget has no effect and is dropped; the window spans
/// `max_n + max_k` tokens otherwise.
pub open spec fn kskip_spec(
    tv: Seq<Seq<char>>,
    min_n: usize,
    max_n: usize,
    max_k: usize,
    pl: Option<Seq<char>>,
    pr: Option<Seq<char>>,
) -> Seq<Seq<Seq<char>>> {
    let k: usize = if max_n == 1 {
        0
    } else {
        max_k
    };
    phases_spec(tv, min_n, max_n, k, (max_n + k) as usize, pl, pr)
}

/// Clone the selected tokens into a gram, appending to `g`.
fn push_picked(g: &mut Vec<String>, tokens: &Vec<String>, base: usize, c: &Vec<usize>)
    requires
        forall|q: int| 0 <= q < c@.len() ==> base + #[trigger] c@[q] < tokens@.len(),
    ensures
        final(g).deep_view() == old(g).deep_view() + pick(tokens.deep_view(), base as int, c@),
{
    let ghost tv = tokens.deep_view();
    let ghost target = pick(tv, base as int, c@);
    let tl = tokens.len();
    let mut q: usize = 0;
    while q < c.len()
        invariant
            q <= c@.len(),
            tv == tokens.deep_view(),
            tv.len() == tokens@.len(),
            tokens@.len() <= usize::MAX,
            target == pick(tv, base as int, c@),
            forall|q2: int| 0 <= q2 < c@.len() ==> base + #[trigger] c@[q2] < tokens@.len(),
            g.deep_view() =~= old(g).deep_view() + target.take(q as int),
        decreases c@.len() - q,
    {
        let ghost prev = g.deep_view();
        assert(base + c@[q as int] < tokens@.len());
        let tok = tokens[base + c[q]].clone();
        assert(tok@ == tokens@[base + c@[q as int]]@);
        assert(tokens@[base + c@[q as int]]@ =~= tv[base + c@[q as int]]);
        g.push(tok);
        proof {
            assert(g.deep_view() =~~= prev.push(target[q as int]));
            assert(target.take(q + 1) =~= target.take(q as int).push(target[q as int]));
        }
        q += 1;
    }
    assert(target.take(target.len() as int) =~= target);
}

/// Append `p` copies of the pad token to `g`.
fn push_pads(g: &mut Vec<String>, p: usize, pad: &str)
    ensures
        final(g).deep_view() == old(g).deep_view() + pad_seq(p as int, pad@),
{
    let ghost target = pad_seq(p as int, pad@);
    let mut j: usize = 0;
    while j < p
        invariant
            j <= p,
            target == pad_seq(p as int, pad@),
            g.deep_view() =~= old(g).deep_view() + target.take(j as int),
        decreases p - j,
    {
        let ghost prev = g.deep_view();
        g.push(pad.to_owned());
        proof {
            assert(g.deep_view() =~~= prev.push(pad@));
            assert(target.take(j + 1) =~= target.take(j as int).push(target[j as int]));
        }
        j += 1;
    }
    assert(target.take(target.len() as int) =~= target);
}

/// Emit one block of anchored combinations: every gram of `n` window
/// positions, anchored at the window start, picked from `base` on.
fn emit_pick_block(
    out: &mut Vec<Vec<String>>,
    tokens: &Vec<String>,
    base: usize,
    max_i: usize,
    n: usize,
)
    requires
        n >= 1,
        max_i + 1 >= n,
        max_i < tokens@.len(),
        base + max_i < tokens@.len(),
    ensures
        final(out).deep_view() == old(out).deep_view() + sc_full(true, max_i, n).map_values(
            |c: Seq<usize>| pick(tokens.deep_view(), base as int, c),
        ),
{
    let ghost tv = tokens.deep_view();
    let ghost blk = sc_full(true, max_i, n).map_values(|c: Seq<usize>| pick(tv, base as int, c));
    let tl = tokens.len();
    assert(max_i < usize::MAX);
    let combos = all_combos(true, max_i, n);
    proof {
        lemma_sc_full_valid(true, max_i, n);
    }
    let mut i: usize = 0;
    while i < combos.len()
        invariant
            i <= combos@.len(),
            tv == tokens.deep_view(),
            tv.len() == tokens@.len(),
            combos.deep_view() == sc_full(true, max_i, n),
            combos.deep_view().len() == combos@.len(),
            blk == sc_full(true, max_i, n).map_values(|c: Seq<usize>| pick(tv, base as int, c)),
            base + max_i < tokens@.len(),
            forall|q: int|
                0 <= q < sc_full(true, max_i, n).len() ==> {
                    let v = #[trigger] sc_full(true, max_i, n)[q];
                    v.len() == n && forall|q2: int| 0 <= q2 < v.len() ==> #[trigger] v[q2] <= max_i
                },
            out.deep_view() =~= old(out).deep_view() + blk.take(i as int),
        decreases combos@.len() - i,
    {
        let ghost prev = out.deep_view();
        assert(combos@[i as int]@ =~= combos.deep_view()[i as int]);
        let mut g: Vec<String> = Vec::new();
        push_picked(&mut g, tokens, base, &combos[i]);
        assert(g.deep_view() =~= pick(tv, base as int, combos.deep_view()[i as int]));
        out.push(g);
        proof {
            assert(out.deep_view() =~~= prev.push(blk[i as int]));
            assert(blk.take(i + 1) =~= blk.take(i as int).push(blk[i as int]));
        }
        i += 1;
    }
    assert(blk.take(blk.len() as int) =~= blk);
}

/// Emit one pad-left block: `p` pads then a combination of `n - p`
/// window positions.
fn emit_pl_block(out: &mut Vec<Vec<String>>, tokens: &Vec<String>, n: usize, p: usize, k: usize, pad: &str)
    requires
        1 <= p < n,
        n + k <= tokens@.len(),
    ensures
        final(out).deep_view() == old(out).deep_view() + pl_block(
            tokens.deep_view(),
            n,
            p,
            k,
            pad@,
        ),
{
    let ghost tv = tokens.deep_view();
    let ghost blk = pl_block(tv, n, p, k, pad@);
    let tl = tokens.len();
    assert(n + k <= tl);
    let max_i = n + k - p - 1;
    let np = n - p;
    let combos = all_combos(false, max_i, np);
    proof {
        lemma_sc_full_valid(false, max_i, np);
    }
    let mut i: usize = 0;
    while i < combos.len()
        invariant
            i <= combos@.len(),
            tv == tokens.deep_view(),
            tv.len() == tokens@.len(),
            max_i == n + k - p - 1 < tokens@.len(),
            np == n - p,
            p as int + np as int == n,
            combos.deep_view() == sc_full(false, max_i, np),
            combos.deep_view().len() == combos@.len(),
            blk == pl_block(tv, n, p, k, pad@),
            forall|q: int|
                0 <= q < sc_full(false, max_i, np).len() ==> {
                    let v = #[trigger] sc_full(false, max_i, np)[q];
                    v.len() == np && forall|q2: int| 0 <= q2 < v.len() ==> #[trigger] v[q2] <= max_i
                },
            out.deep_view() =~= old(out).deep_view() + blk.take(i as int),
        decreases combos@.len() - i,
    {
        let ghost prev = out.deep_view();
        assert(combos@[i as int]@ =~= combos.deep_view()[i as int]);
        let mut g: Vec<String> = Vec::new();
        push_pads(&mut g, p, pad);
        push_picked(&mut g, tokens, 0, &combos[i]);
        assert(g.deep_view() =~= pad_seq(p as int, pad@) + pick(
            tv,
            0,
            combos.deep_view()[i as int],
        ));
        out.push(g);
        proof {
            assert(out.deep_view() =~~= prev.push(blk[i as int]));
            assert(blk.take(i + 1) =~= blk.take(i as int).push(blk[i as int]));
        }
        i += 1;
    }
    assert(blk.take(blk.len() as int) =~= blk);
}

/// Emit one pad-right block: a mirrored combination of `n - p` positions
/// at the stream's end, then `p` pads.
fn emit_pr_block(out: &mut Vec<Vec<String>>, tokens: &Vec<String>, n: usize, p: usize, k: usize, pad: &str)
    requires
        1 <= p < n,
        n + k <= tokens@.len(),
    ensures
        final(out).deep_view() == old(out).deep_view() + pr_block(
            tokens.deep_view(),
            n,
            p,
            k,
            pad@,
        ),
{
    let ghost tv = tokens.deep_view();
    let ghost blk = pr_block(tv, n, p, k, pad@);
    let tl = tokens.len();
    assert(n + k <= tl);
    let max_i = n + k - p - 1;
    let np = n - p;
    let combos = all_combos(false, max_i, np);
    proof {
        lemma_sc_full_valid(false, max_i, np);
    }
    let mut i: usize = 0;
    while i < combos.len()
        invariant
            i <= combos@.len(),
            tv == tokens.deep_view(),
            tv.len() == tokens@.len(),
            max_i == n + k - p - 1 < tokens@.len(),
            np == n - p,
            combos.deep_view() == sc_full(false, max_i, np),
            combos.deep_view().len() == combos@.len(),
            blk == pr_block(tv, n, p, k, pad@),
            forall|q: int|
                0 <= q < sc_full(false, max_i, np).len() ==> {
                    let v = #[trigger] sc_full(false, max_i, np)[q];
                    v.len() == np && forall|q2: int| 0 <= q2 < v.len() ==> #[trigger] v[q2] <= max_i
                },
            out.deep_view() =~= old(out).deep_view() + blk.take(i as int),
        decreases combos@.len() - i,
    {
        let ghost prev = out.deep_view();
        assert(combos@[i as int]@ =~= combos.deep_view()[i as int]);
        let c = &combos[i];
        let ghost cv = combos.deep_view()[i as int];
        assert(c@ =~= cv);
        let ghost mirror = Seq::new(cv.len(), |t: int| tv[tv.len() - 1 - cv[cv.len() - 1 - t]]);
        let mut g: Vec<String> = Vec::new();
        let mut t: usize = 0;
        while t < c.len()
            invariant
                t <= c@.len(),
                tv == tokens.deep_view(),
                tv.len() == tokens@.len(),
                cv == combos.deep_view()[i as int],
                i < combos@.len(),
                c@ == combos@[i as int]@,
                cv == c@,
                cv.len() == c@.len(),
                forall|q2: int| 0 <= q2 < cv.len() ==> #[trigger] cv[q2] < tokens@.len(),
                mirror == Seq::new(cv.len(), |t2: int| tv[tv.len() - 1 - cv[cv.len() - 1 - t2]]),
                g.deep_view() =~= mirror.take(t as int),
            decreases c@.len() - t,
        {
            let ghost prev_g = g.deep_view();
            let idx = c[c.len() - 1 - t];
            proof {
                assert(cv[c@.len() - 1 - t] == idx);
                assert(idx < tokens@.len());
            }
            let tok = tokens[tokens.len() - 1 - idx].clone();
            proof {
                assert(tok@ == tokens@[tokens@.len() - 1 - idx]@);
                assert(tokens@[tokens@.len() - 1 - idx]@ =~= tv[tv.len() - 1 - idx]);
            }
            g.push(tok);
            proof {
                assert(g.deep_view() =~~= prev_g.push(mirror[t as int]));
                assert(mirror.take(t + 1) =~= mirror.take(t as int).push(mirror[t as int]));
            }
            t += 1;
        }
        assert(mirror.take(mirror.len() as int) =~= mirror);
        push_pads(&mut g, p, pad);
        assert(g.deep_view() =~= pr_gram(tv, cv, p, pad@));
        out.push(g);
        proof {
            assert(out.deep_view() =~~= prev.push(blk[i as int]));
            assert(blk.take(i + 1) =~= blk.take(i as int).push(blk[i as int]));
        }
        i += 1;
    }
    assert(blk.take(blk.len() as int) =~= blk);
}

/// Emit the pad-left grams for gram length `n`, padding `p` down to 1.
fn emit_pl_for_n(
    out: &mut Vec<Vec<String>>,
    tokens: &Vec<String>,
    n: usize,
    k: usize,
    pad: &str,
    p: usize,
)
    requires
        2 <= n,
        p <= n - 1,
        n + k <= tokens@.len(),
    ensures
        final(out).deep_view() == old(out).deep_view() + pl_for_n(
            tokens.deep_view(),
            n,
            k,
            pad@,
            p as int,
        ),
    decreases p,
{
    if p < 1 {
        assert(final(out).deep_view() =~= old(out).deep_view() + pl_for_n(
            tokens.deep_view(),
            n,
            k,
            pad@,
            p as int,
        ));
    } else {
        let ghost base0 = out.deep_view();
        emit_pl_block(out, tokens, n, p, k, pad);
        emit_pl_for_n(out, tokens, n, k, pad, p - 1);
        proof {
            assert(out.deep_view() =~= base0 + pl_for_n(
                tokens.deep_view(),
                n,
                k,
                pad@,
                p as int,
            ));
        }
    }
}

/// Emit the pad-left grams for gram lengths `n` up to `max_n`.
fn emit_pl_phase(
    out: &mut Vec<Vec<String>>,
    tokens: &Vec<String>,
    max_n: usize,
    k: usize,
    pad: &str,
    n: usize,
)
    requires
        2 <= n,
        n <= max_n + 1,
        max_n + k <= tokens@.len(),
    ensures
        final(out).deep_view() == old(out).deep_view() + pl_phase(
            tokens.deep_view(),
            max_n,
            k,
            pad@,
            n as int,
        ),
    decreases max_n + 1 - n,
{
    if n > max_n {
        assert(final(out).deep_view() =~= old(out).deep_view() + pl_phase(
            tokens.deep_view(),
            max_n,
            k,
            pad@,
            n as int,
        ));
    } else {
        let ghost base0 = out.deep_view();
        emit_pl_for_n(out, tokens, n, k, pad, n - 1);
        if n < max_n {
            emit_pl_phase(out, tokens, max_n, k, pad, n + 1);
        } else {
            proof {
                assert(pl_phase(tokens.deep_view(), max_n, k, pad@, n + 1)
                    =~= Seq::<Seq<Seq<char>>>::empty());
            }
        }
        proof {
            assert(out.deep_view() =~= base0 + pl_phase(
                tokens.deep_view(),
                max_n,
                k,
                pad@,
                n as int,
            ));
        }
    }
}

/// Emit the main grams at one window position, lengths `n` up to `max_n`.
fn emit_main_for_start(
    out: &mut Vec<Vec<String>>,
    tokens: &Vec<String>,
    start: usize,
    max_n: usize,
    k: usize,
    n: usize,
)
    requires
        1 <= n,
        n <= max_n + 1,
        max_n + k <= tokens@.len(),
        start + max_n + k <= tokens@.len(),
    ensures
        final(out).deep_view() == old(out).deep_view() + main_for_start(
            tokens.deep_view(),
            start as int,
            max_n,
            k,
            n as int,
        ),
    decreases max_n + 1 - n,
{
    if n > max_n {
        assert(final(out).deep_view() =~= old(out).deep_view() + main_for_start(
            tokens.deep_view(),
            start as int,
            max_n,
            k,
            n as int,
        ));
    } else {
        let ghost base0 = out.deep_view();
        let tl = tokens.len();
        assert(n + k <= tl);
        emit_pick_block(out, tokens, start, n + k - 1, n);
        if n < max_n {
            emit_main_for_start(out, tokens, start, max_n, k, n + 1);
        } else {
            proof {
                assert(main_for_start(tokens.deep_view(), start as int, max_n, k, n + 1)
                    =~= Seq::<Seq<Seq<char>>>::empty());
            }
        }
        proof {
            assert(out.deep_view() =~= base0 + main_for_start(
                tokens.deep_view(),
                start as int,
                max_n,
                k,
                n as int,
            ));
        }
    }
}

/// Emit the main grams at every window position from `start` on.
fn emit_main_phase(
    out: &mut Vec<Vec<String>>,
    tokens: &Vec<String>,
    min_n: usize,
    max_n: usize,
    k: usize,
    w: usize,
    start: usize,
)
    requires
        1 <= min_n <= max_n,
        w == max_n + k,
        w <= tokens@.len(),
    ensures
        final(out).deep_view() == old(out).deep_view() + main_phase(
            tokens.deep_view(),
            min_n,
            max_n,
            k,
            w,
            start as int,
        ),
    decreases tokens@.len() - start,
{
    if start > tokens.len() - w {
        assert(final(out).deep_view() =~= old(out).deep_view() + main_phase(
            tokens.deep_view(),
            min_n,
            max_n,
            k,
            w,
            start as int,
        ));
    } else {
        let ghost base0 = out.deep_view();
        emit_main_for_start(out, tokens, start, max_n, k, min_n);
        emit_main_phase(out, tokens, min_n, max_n, k, w, start + 1);
        proof {
            assert(out.deep_view() =~= base0 + main_phase(
                tokens.deep_view(),
                min_n,
                max_n,
                k,
                w,
                start as int,
            ));
        }
    }
}

/// Emit the tail grams at one offset, lengths from `n` up.
fn emit_me_for_offset(
    out: &mut Vec<Vec<String>>,
    tokens: &Vec<String>,
    w: usize,
    offset: usize,
    max_n: usize,
    k: usize,
    n: usize,
)
    requires
        1 <= n,
        1 <= offset < w,
        w <= tokens@.len(),
    ensures
        final(out).deep_view() == old(out).deep_view() + me_for_offset(
            tokens.deep_view(),
            w,
            offset as int,
            max_n,
            k,
            n as int,
        ),
    decreases max_n + 1 - n,
{
    let lim = if max_n <= w - offset {
        max_n
    } else {
        w - offset
    };
    if n > lim {
        assert(final(out).deep_view() =~= old(out).deep_view() + me_for_offset(
            tokens.deep_view(),
            w,
            offset as int,
            max_n,
            k,
            n as int,
        ));
    } else {
        let ghost base0 = out.deep_view();
        let kn = if w - offset > n {
            if k <= w - offset - n {
                k
            } else {
                w - offset - n
            }
        } else {
            0
        };
        assert(kn == me_k(w, offset as int, n, k));
        assert(n + kn <= w - offset);
        emit_pick_block(out, tokens, tokens.len() - w + offset, n + kn - 1, n);
        emit_me_for_offset(out, tokens, w, offset, max_n, k, n + 1);
        proof {
            assert(out.deep_view() =~= base0 + me_for_offset(
                tokens.deep_view(),
                w,
                offset as int,
                max_n,
                k,
                n as int,
            ));
        }
    }
}

/// Emit the tail grams at every offset from `offset` on.
fn emit_me_phase(
    out: &mut Vec<Vec<String>>,
    tokens: &Vec<String>,
    w: usize,
    min_n: usize,
    max_n: usize,
    k: usize,
    offset: usize,
)
    requires
        1 <= min_n <= max_n,
        1 <= offset,
        min_n <= w,
        w <= tokens@.len(),
    ensures
        final(out).deep_view() == old(out).deep_view() + me_phase(
            tokens.deep_view(),
            w,
            min_n,
            max_n,
            k,
            offset as int,
        ),
    decreases w - min_n - offset + 1,
{
    if offset > w - min_n {
        assert(final(out).deep_view() =~= old(out).deep_view() + me_phase(
            tokens.deep_view(),
            w,
            min_n,
            max_n,
            k,
            offset as int,
        ));
    } else {
        let ghost base0 = out.deep_view();
        emit_me_for_offset(out, tokens, w, offset, max_n, k, min_n);
        emit_me_phase(out, tokens, w, min_n, max_n, k, offset + 1);
        proof {
            assert(out.deep_view() =~= base0 + me_phase(
                tokens.deep_view(),
                w,
                min_n,
                max_n,
                k,
                offset as int,
            ));
        }
    }
}

/// Emit the pad-right grams for gram length `n`, padding `p` up to `n-1`.
fn emit_pr_for_n(
    out: &mut Vec<Vec<String>>,
    tokens: &Vec<String>,
    n: usize,
    k: usize,
    pad: &str,
    p: usize,
)
    requires
        2 <= n,
        1 <= p,
        n + k <= tokens@.len(),
    ensures
        final(out).deep_view() == old(out).deep_view() + pr_for_n(
            tokens.deep_view(),
            n,
            k,
            pad@,
            p as int,
        ),
    decreases n - p,
{
    if p > n - 1 {
        assert(final(out).deep_view() =~= old(out).deep_view() + pr_for_n(
            tokens.deep_view(),
            n,
            k,
            pad@,
            p as int,
        ));
    } else {
        let ghost base0 = out.deep_view();
        emit_pr_block(out, tokens, n, p, k, pad);
        emit_pr_for_n(out, tokens, n, k, pad, p + 1);
        proof {
            assert(out.deep_view() =~= base0 + pr_for_n(
                tokens.deep_view(),
                n,
                k,
                pad@,
                p as int,
            ));
        }
    }
}

/// Emit the pad-right grams for gram lengths `n` up to `max_n`.
fn emit_pr_phase(
    out: &mut Vec<Vec<String>>,
    tokens: &Vec<String>,
    max_n: usize,
    k: usize,
    pad: &str,
    n: usize,
)
    requires
        2 <= n,
        n <= max_n + 1,
        max_n + k <= tokens@.len(),
    ensures
        final(out).deep_view() == old(out).deep_view() + pr_phase(
            tokens.deep_view(),
            max_n,
            k,
            pad@,
            n as int,
        ),
    decreases max_n + 1 - n,
{
    if n > max_n {
        assert(final(out).deep_view() =~= old(out).deep_view() + pr_phase(
            tokens.deep_view(),
            max_n,
            k,
            pad@,
            n as int,
        ));
    } else {
        let ghost base0 = out.deep_view();
        emit_pr_for_n(out, tokens, n, k, pad, 1);
        if n < max_n {
            emit_pr_phase(out, tokens, max_n, k, pad, n + 1);
        } else {
            proof {
                assert(pr_phase(tokens.deep_view(), max_n, k, pad@, n + 1)
                    =~= Seq::<Seq<Seq<char>>>::empty());
            }
        }
        proof {
            assert(out.deep_view() =~= base0 + pr_phase(
                tokens.deep_view(),
                max_n,
                k,
                pad@,
                n as int,
            ));
        }
    }
}

/// Generate every k-skip-n-gram of a token list, phase after phase.
/// Rejects a zero or inverted gram range, and a token list shorter than
/// one window.
/// Emit every phase for an explicit skip budget `k` and window size `w`.
pub(crate) fn emit_phases(
    tokens: &Vec<String>,
    min_n: usize,
    max_n: usize,
    k: usize,
    w: usize,
    pad_left: Option<&str>,
    pad_right: Option<&str>,
) -> (r: Vec<Vec<String>>)
    requires
        1 <= min_n <= max_n,
        w == max_n + k,
        w <= tokens@.len(),
    ensures
        r.deep_view() == phases_spec(
            tokens.deep_view(),
            min_n,
            max_n,
            k,
            w,
            opt_view(pad_left),
            opt_view(pad_right),
        ),
{
    let ghost tv = tokens.deep_view();
    let ghost pl_spec = pad_left_part(tv, min_n, max_n, k, opt_view(pad_left));
    let ghost pr_spec = pad_right_part(tv, min_n, max_n, k, opt_view(pad_right));
    let ghost me_spec = main_end_part(tv, min_n, max_n, k, w);
    let mut out: Vec<Vec<String>> = Vec::new();
    match pad_left {
        Some(pad) => {
            if max_n > 1 {
                let n0 = if min_n >= 2 {
                    min_n
                } else {
                    2
                };
                emit_pl_phase(&mut out, tokens, max_n, k, pad, n0);
            }
        },
        None => {},
    }
    assert(out.deep_view() =~= pl_spec);
    emit_main_phase(&mut out, tokens, min_n, max_n, k, w, 0);
    let ghost after_main = out.deep_view();
    if (min_n != max_n || k > 0) && w > 1 {
        emit_me_phase(&mut out, tokens, w, min_n, max_n, k, 1);
    }
    assert(out.deep_view() =~= after_main + me_spec);
    let ghost after_me = out.deep_view();
    match pad_right {
        Some(pad) => {
            if max_n > 1 {
                let n0 = if min_n >= 2 {
                    min_n
                } else {
                    2
                };
                emit_pr_phase(&mut out, tokens, max_n, k, pad, n0);
            }
        },
        None => {},
    }
    assert(out.deep_view() =~= after_me + pr_spec);
    proof {
        assert(out.deep_view() =~= phases_spec(
            tv,
            min_n,
            max_n,
            k,
            w,
            opt_view(pad_left),
            opt_view(pad_right),
        ));
    }
    out
}

/// Generate every k-skip-n-gram of a token list, phase after phase.
/// Rejects a zero or inverted gram range, and a token list shorter than
/// one window.
fn build_grams(
    tokens: &Vec<String>,
    min_n: usize,
    max_n: usize,
    max_k: usize,
    pad_left: Option<&str>,
    pad_right: Option<&str>,
) -> (r: Result<Vec<Vec<String>>, EstimatorErr>)
    ensures
        r is Ok <==> (1 <= min_n && min_n <= max_n && tokens@.len() >= max_n + (if max_n == 1 {
            0
        } else {
            max_k
        })),
        r matches Ok(g) ==> g.deep_view() == kskip_spec(
            tokens.deep_view(),
            min_n,
            max_n,
            max_k,
            opt_view(pad_left),
            opt_view(pad_right),
        ),
        r matches Err(e) ==> ((min_n < 1 || min_n > max_n) ==> e matches EstimatorErr::InvalidParams(
            _,
        )) && (!(min_n < 1 || min_n > max_n) ==> e matches EstimatorErr::InvalidInput(_)),
{
    if min_n < 1 {
        return Err(
            EstimatorErr::InvalidParams("`min_n` must be greater than or equal to 1".to_owned()),
        );
    }
    if min_n > max_n {
        return Err(
            EstimatorErr::InvalidParams(
                "`max_n` must be greater than or equal to `min_n`".to_owned(),
            ),
        );
    }
    let k: usize = if max_n == 1 {
        0
    } else {
        max_k
    };
    if tokens.len() < max_n || tokens.len() - max_n < k {
        return Err(
            EstimatorErr::InvalidInput(
                "Items length is smaller than `max_n`+`max_k`".to_owned(),
            ),
        );
    }
    let w = max_n + k;
    let out = emit_phases(tokens, min_n, max_n, k, w, pad_left, pad_right);
    Ok(out)
}

/// The three parameters of a k-skip-n-gram generator.
#[derive(Debug, Clone, Copy, PartialEq, Eq, Structural)]
pub struct KSkipNGramsParams {
    pub min_n: usize,
    pub max_n: usize,
    pub max_k: usize,
}

impl KSkipNGramsParams {
    /// Bundle the three parameters.
    pub fn new(min_n: usize, max_n: usize, max_k: usize) -> (r: KSkipNGramsParams)
        ensures
            r.min_n == min_n,
            r.max_n == max_n,
            r.max_k == max_k,
    {
        KSkipNGramsParams { min_n, max_n, max_k }
    }

    /// Wrap the parameters into a generator.
    pub fn build(&mut self) -> (r: KSkipNGrams)
        ensures
            r.params == *old(self),
            *final(self) == *old(self),
    {
        KSkipNGrams { params: *self }
    }
}

/// Transforms a token list into its k-skip-n-grams. Use the convenience
/// constructors `new_bigram`, `new_trigram`, `new_ngrams`,
/// `new_everygrams` and `new_skipgrams` for the common cases.
#[derive(Debug, Clone)]
pub struct KSkipNGrams {
    pub params: KSkipNGramsParams,
}

impl KSkipNGrams {
    /// Plain bigrams.
    pub fn new_bigram() -> (r: KSkipNGrams)
        ensures
            r.params == (KSkipNGramsParams { min_n: 2, max_n: 2, max_k: 0 }),
    {
        KSkipNGrams { params: KSkipNGramsParams { min_n: 2, max_n: 2, max_k: 0 } }
    }

    /// Plain trigrams.
    pub fn new_trigram() -> (r: KSkipNGrams)
        ensures
            r.params == (KSkipNGramsParams { min_n: 3, max_n: 3, max_k: 0 }),
    {
        KSkipNGrams { params: KSkipNGramsParams { min_n: 3, max_n: 3, max_k: 0 } }
    }

    /// Plain n-grams of one degree.
    pub fn new_ngrams(n: usize) -> (r: KSkipNGrams)
        ensures
            r.params == (KSkipNGramsParams { min_n: n, max_n: n, max_k: 0 }),
    {
        KSkipNGrams { params: KSkipNGramsParams { min_n: n, max_n: n, max_k: 0 } }
    }

    /// Every gram length between `min_n` and `max_n`.
    pub fn new_everygrams(min_n: usize, max_n: usize) -> (r: KSkipNGrams)
        ensures
            r.params == (KSkipNGramsParams { min_n, max_n, max_k: 0 }),
    {
        KSkipNGrams { params: KSkipNGramsParams { min_n, max_n, max_k: 0 } }
    }

    /// Skip-grams of one degree with a total skip budget of `k`.
    pub fn new_skipgrams(n: usize, k: usize) -> (r: KSkipNGrams)
        ensures
            r.params == (KSkipNGramsParams { min_n: n, max_n: n, max_k: k }),
    {
        KSkipNGrams { params: KSkipNGramsParams { min_n: n, max_n: n, max_k: k } }
    }

    /// Arbitrary parameters.
    pub fn new(min_n: usize, max_n: usize, max_k: usize) -> (r: KSkipNGrams)
        ensures
            r.params == (KSkipNGramsParams { min_n, max_n, max_k }),
    {
        KSkipNGrams { params: KSkipNGramsParams { min_n, max_n, max_k } }
    }

    /// Generate every gram of a token list, in emission order.
    pub fn transform(
        &self,
        items: &Vec<String>,
        pad_left: Option<&str>,
        pad_right: Option<&str>,
    ) -> (r: Result<Vec<Vec<String>>, EstimatorErr>)
        ensures
            r is Ok <==> (1 <= self.params.min_n && self.params.min_n <= self.params.max_n
                && items@.len() >= self.params.max_n + (if self.params.max_n == 1 {
                0
            } else {
                self.params.max_k
            })),
            r matches Ok(g) ==> g.deep_view() == kskip_spec(
                items.deep_view(),
                self.params.min_n,
                self.params.max_n,
                self.params.max_k,
                opt_view(pad_left),
                opt_view(pad_right),
            ),
    {
        build_grams(
            items,
            self.params.min_n,
            self.params.max_n,
            self.params.max_k,
            pad_left,
            pad_right,
        )
    }
}

/// An iterator over the k-skip-n-grams of a token list. The grams are
/// produced up front, exactly in the emission order of `kskip_spec`, and
/// handed out one at a time.
pub struct KSkipNGramsIter {
    grams: Vec<Vec<String>>,
    pos: usize,
}

impl KSkipNGramsIter {
    /// The full gram list this iterator walks.
    pub closed spec fn spec_grams(&self) -> Seq<Seq<Seq<char>>> {
        self.grams.deep_view()
    }

    /// How many grams have been handed out already.
    pub closed spec fn spec_pos(&self) -> int {
        self.pos as int
    }

    /// Build the iterator. Rejects a zero or inverted gram range and a
    /// token list shorter than one window.
    pub fn new(
        items: &Vec<String>,
        min_n: usize,
        max_n: usize,
        max_k: usize,
        pad_left: Option<&str>,
        pad_right: Option<&str>,
    ) -> (r: Result<KSkipNGramsIter, EstimatorErr>)
        ensures
            r is Ok <==> (1 <= min_n && min_n <= max_n && items@.len() >= max_n + (if max_n == 1 {
                0
            } else {
                max_k
            })),
            r matches Ok(it) ==> it.spec_grams() == kskip_spec(
                items.deep_view(),
                min_n,
                max_n,
                max_k,
                opt_view(pad_left),
                opt_view(pad_right),
            ) && it.spec_pos() == 0,
            r matches Err(e) ==> ((min_n < 1 || min_n > max_n)
                ==> e matches EstimatorErr::InvalidParams(_)) && (!(min_n < 1 || min_n > max_n)
                ==> e matches EstimatorErr::InvalidInput(_)),
    {
        match build_grams(items, min_n, max_n, max_k, pad_left, pad_right) {
            Ok(grams) => Ok(KSkipNGramsIter { grams, pos: 0 }),
            Err(e) => Err(e),
        }
    }

    /// The next gram, or `None` once every gram has been handed out.
    pub fn next(&mut self) -> (r: Option<Vec<String>>)
        ensures
            final(self).spec_grams() == old(self).spec_grams(),
            old(self).spec_pos() < old(self).spec_grams().len() ==> {
                &&& r matches Some(g) && g.deep_view() == old(self).spec_grams()[old(
                    self,
                ).spec_pos()]
                &&& final(self).spec_pos() == old(self).spec_pos() + 1
            },
            old(self).spec_pos() >= old(self).spec_grams().len() ==> r is None
                && final(self).spec_pos() == old(self).spec_pos(),
    {
        if self.pos < self.grams.len() {
            let g = clone_gram(&self.grams[self.pos]);
            assert(self.grams@[self.pos as int].deep_view() =~= self.spec_grams()[
                self.pos as int]);
            self.pos += 1;
            Some(g)
        } else {
            None
        }
    }

    /// Every remaining gram, in order.
    pub fn collect_all(&mut self) -> (r: Vec<Vec<String>>)
        requires
            old(self).spec_pos() <= old(self).spec_grams().len(),
        ensures
            r.deep_view() == old(self).spec_grams().skip(old(self).spec_pos()),
            final(self).spec_pos() == old(self).spec_grams().len(),
    {
        let mut out: Vec<Vec<String>> = Vec::new();
        while self.pos < self.grams.len()
            invariant
                self.grams == old(self).grams,
                old(self).spec_pos() <= self.pos as int <= self.spec_grams().len(),
                self.spec_grams().len() == self.grams@.len(),
                out.deep_view() =~= self.spec_grams().subrange(
                    old(self).spec_pos(),
                    self.pos as int,
                ),
            decreases self.grams@.len() - self.pos,
        {
            let g = clone_gram(&self.grams[self.pos]);
            assert(self.grams@[self.pos as int].deep_view() =~= self.spec_grams()[
                self.pos as int]);
            out.push(g);
            proof {
                assert(self.spec_grams().subrange(old(self).spec_pos(), self.pos + 1)
                    =~= self.spec_grams().subrange(old(self).spec_pos(), self.pos as int).push(
                    self.spec_grams()[self.pos as int],
                ));
                assert(out.deep_view() =~~= self.spec_grams().subrange(
                    old(self).spec_pos(),
                    self.pos + 1,
                ));
            }
            self.pos += 1;
        }
        proof {
            assert(self.spec_grams().subrange(old(self).spec_pos(), self.spec_grams().len() as int)
                =~= self.spec_grams().skip(old(self).spec_pos()));
        }
        out
    }
}

/// Copy a gram.
pub(crate) fn clone_gram(v: &Vec<String>) -> (r: Vec<String>)
    ensures
        r.deep_view() == v.deep_view(),
{
    let mut out: Vec<String> = Vec::new();
    let mut i: usize = 0;
    while i < v.len()
        invariant
            i <= v@.len(),
            out.deep_view() =~= v.deep_view().take(i as int),
        decreases v@.len() - i,
    {
        let ghost prev = out.deep_view();
        let s = v[i].clone();
        assert(s@ == v@[i as int]@);
        assert(v@[i as int]@ =~= v.deep_view()[i as int]);
        out.push(s);
        proof {
            assert(out.deep_view() =~~= prev.push(v.deep_view()[i as int]));
            assert(v.deep_view().take(i + 1) =~= v.deep_view().take(i as int).push(
                v.deep_view()[i as int],
            ));
        }
        i += 1;
    }
    assert(v.deep_view().take(v.deep_view().len() as int) =~= v.deep_view());
    out
}

/// All bigrams of a token list.
pub fn bigram(items: &Vec<String>, pad_left: Option<&str>, pad_right: Option<&str>) -> (r: Result<
    Vec<Vec<String>>,
    EstimatorErr,
>)
    ensures
        r is Ok <==> items@.len() >= 2,
        r matches Ok(g) ==> g.deep_view() == kskip_spec(
            items.deep_view(),
            2,
            2,
            0,
            opt_view(pad_left),
            opt_view(pad_right),
        ),
{
    build_grams(items, 2, 2, 0, pad_left, pad_right)
}

/// All n-grams of one degree.
pub fn ngrams(items: &Vec<String>, n: usize, pad_left: Option<&str>, pad_right: Option<&str>) -> (r:
    Result<Vec<Vec<String>>, EstimatorErr>)
    ensures
        r is Ok <==> (1 <= n && items@.len() >= n),
        r matches Ok(g) ==> g.deep_view() == kskip_spec(
            items.deep_view(),
            n,
            n,
            0,
            opt_view(pad_left),
            opt_view(pad_right),
        ),
{
    build_grams(items, n, n, 0, pad_left, pad_right)
}

/// All gram lengths between `min_n` and `max_n`.
pub fn everygrams(
    items: &Vec<String>,
    min_n: usize,
    max_n: usize,
    pad_left: Option<&str>,
    pad_right: Option<&str>,
) -> (r: Result<Vec<Vec<String>>, EstimatorErr>)
    ensures
        r is Ok <==> (1 <= min_n && min_n <= max_n && items@.len() >= max_n),
        r matches Ok(g) ==> g.deep_view() == kskip_spec(
            items.deep_view(),
            min_n,
            max_n,
            0,
            opt_view(pad_left),
            opt_view(pad_right),
        ),
{
    build_grams(items, min_n, max_n, 0, pad_left, pad_right)
}

/// All skip-grams of one degree with a total skip budget of `k`.
pub fn skipgrams(
    items: &Vec<String>,
    n: usize,
    k: usize,
    pad_left: Option<&str>,
    pad_right: Option<&str>,
) -> (r: Result<Vec<Vec<String>>, EstimatorErr>)
    ensures
        r is Ok <==> (1 <= n && items@.len() >= n + (if n == 1 {
            0
        } else {
            k
        })),
        r matches Ok(g) ==> g.deep_view() == kskip_spec(
            items.deep_view(),
            n,
            n,
            k,
            opt_view(pad_left),
            opt_view(pad_right),
        ),
{
    build_grams(items, n, n, k, pad_left, pad_right)
}

/// All k-skip-n-grams for arbitrary parameters.
pub fn build_k_skip_n_grams(
    items: &Vec<String>,
    min_n: usize,
    max_n: usize,
    max_k: usize,
    pad_left: Option<&str>,
    pad_right: Option<&str>,
) -> (r: Result<Vec<Vec<String>>, EstimatorErr>)
    ensures
        r is Ok <==> (1 <= min_n && min_n <= max_n && items@.len() >= max_n + (if max_n == 1 {
            0
        } else {
            max_k
        })),
        r matches Ok(g) ==> g.deep_view() == kskip_spec(
            items.deep_view(),
            min_n,
            max_n,
            max_k,
            opt_view(pad_left),
            opt_view(pad_right),
        ),
{
    build_grams(items, min_n, max_n, max_k, pad_left, pad_right)
}

/// For plain n-grams every window position emits exactly one gram: the
/// window itself.
proof fn lemma_main_phase_plain(tv: Seq<Seq<char>>, n: usize, start: int)
    requires
        1 <= n,
        n <= tv.len(),
        tv.len() <= usize::MAX,
        0 <= start <= tv.len() - n + 1,
    ensures
        main_phase(tv, n, n, 0, n, start).len() == tv.len() - n + 1 - start,
        forall|i: int|
            0 <= i < main_phase(tv, n, n, 0, n, start).len() ==> #[trigger] main_phase(
                tv,
                n,
                n,
                0,
                n,
                start,
            )[i] == tv.subrange(start + i, start + i + n),
    decreases tv.len() - start,
{
    if start > tv.len() - n {
        assert(main_phase(tv, n, n, 0, n, start) =~= Seq::<Seq<Seq<char>>>::empty());
    } else {
        lemma_sc_full_single(true, (n - 1) as usize, n);
        let blk = main_block(tv, start, n, 0);
        let idc = Seq::new(n as nat, |t: int| t as usize);
        assert(sc_full(true, (n - 1) as usize, n) =~= seq![idc]);
        assert(blk.len() == 1);
        assert(blk[0] == pick(tv, start, idc));
        assert(pick(tv, start, idc) =~= tv.subrange(start, start + n));
        assert(main_for_start(tv, start, n, 0, n + 1) =~= Seq::<Seq<Seq<char>>>::empty());
        assert(main_for_start(tv, start, n, 0, n as int) =~= blk);
        lemma_main_phase_plain(tv, n, start + 1);
        let rest = main_phase(tv, n, n, 0, n, start + 1);
        assert(main_phase(tv, n, n, 0, n, start) == main_for_start(tv, start, n, 0, n as int)
            + rest);
        assert forall|i: int| 0 <= i < main_phase(tv, n, n, 0, n, start).len() implies
            #[trigger] main_phase(tv, n, n, 0, n, start)[i] == tv.subrange(
            start + i,
            start + i + n,
        ) by {
            if i == 0 {
                assert(main_phase(tv, n, n, 0, n, start)[0] == blk[0]);
            } else {
                assert(main_phase(tv, n, n, 0, n, start)[i] == rest[i - 1]);
                assert(rest[i - 1] == tv.subrange(start + 1 + (i - 1), start + 1 + (i - 1) + n));
            }
        }
    }
}

/// For plain n-grams each left-padding amount emits exactly one gram.
proof fn lemma_pl_plain_len(tv: Seq<Seq<char>>, n: usize, pad: Seq<char>, p: int)
    requires
        2 <= n,
        n <= tv.len(),
        tv.len() <= usize::MAX,
        p <= n - 1,
    ensures
        pl_for_n(tv, n, 0, pad, p).len() == if p >= 0 {
            p
        } else {
            0
        },
    decreases p,
{
    if p < 1 {
    } else {
        lemma_sc_full_single(false, ((n + 0) - p - 1) as usize, (n - p) as usize);
        assert(pl_block(tv, n, p as usize, 0, pad).len() == 1);
        lemma_pl_plain_len(tv, n, pad, p - 1);
    }
}

/// For plain n-grams each right-padding amount emits exactly one gram.
proof fn lemma_pr_plain_len(tv: Seq<Seq<char>>, n: usize, pad: Seq<char>, p: int)
    requires
        2 <= n,
        n <= tv.len(),
        tv.len() <= usize::MAX,
        1 <= p,
    ensures
        pr_for_n(tv, n, 0, pad, p).len() == if p <= n - 1 {
            n - p
        } else {
            0
        },
    decreases n - p,
{
    if p > n - 1 {
    } else {
        lemma_sc_full_single(false, ((n + 0) - p - 1) as usize, (n - p) as usize);
        assert(pr_block(tv, n, p as usize, 0, pad).len() == 1);
        lemma_pr_plain_len(tv, n, pad, p + 1);
    }
}

/// Window count: plain n-grams without padding over `L` tokens are
/// exactly the `L - n + 1` sliding windows, in order.
pub proof fn lemma_plain_windows(tv: Seq<Seq<char>>, n: usize)
    requires
        1 <= n,
        n <= tv.len(),
        tv.len() <= usize::MAX,
    ensures
        kskip_spec(tv, n, n, 0, None, None).len() == tv.len() - n + 1,
        forall|i: int|
            0 <= i < kskip_spec(tv, n, n, 0, None, None).len() ==> #[trigger] kskip_spec(
                tv,
                n,
                n,
                0,
                None,
                None,
            )[i] == tv.subrange(i, i + n),
{
    lemma_main_phase_plain(tv, n, 0);
    let main = main_phase(tv, n, n, 0, n, 0);
    assert(kskip_spec(tv, n, n, 0, None, None) =~= main);
}

/// Padding symmetry: plain n-grams with the same pad token on both sides
/// add exactly `n - 1` boundary windows at each end.
pub proof fn lemma_padding_symmetry(tv: Seq<Seq<char>>, n: usize, pad: Seq<char>)
    requires
        1 <= n,
        n <= tv.len(),
        tv.len() <= usize::MAX,
    ensures
        kskip_spec(tv, n, n, 0, Some(pad), Some(pad)).len() == (tv.len() - n + 1) + 2 * (n - 1),
{
    lemma_main_phase_plain(tv, n, 0);
    let full = kskip_spec(tv, n, n, 0, Some(pad), Some(pad));
    if n == 1 {
        assert(full =~= main_phase(tv, 1, 1, 0, 1, 0));
    } else {
        lemma_pl_plain_len(tv, n, pad, n - 1);
        lemma_pr_plain_len(tv, n, pad, 1);
        assert(pl_phase(tv, n, 0, pad, n + 1) =~= Seq::<Seq<Seq<char>>>::empty());
        assert(pl_phase(tv, n, 0, pad, n as int) =~= pl_for_n(tv, n, 0, pad, n - 1));
        assert(pr_phase(tv, n, 0, pad, n + 1) =~= Seq::<Seq<Seq<char>>>::empty());
        assert(pr_phase(tv, n, 0, pad, n as int) =~= pr_for_n(tv, n, 0, pad, 1));
        assert(pad_left_part(tv, n, n, 0, Some(pad)).len() == n - 1);
        assert(pad_right_part(tv, n, n, 0, Some(pad)).len() == n - 1);
        assert(main_end_part(tv, n, n, 0, n).len() == 0);
    }
}

} // verus!
