//! Gram construction from token streams, one gram length at a time.
//!
//! `pad_items` frames a token list with synthetic boundary tokens;
//! `NGramIter` walks the plain sliding windows; `SkipGramIter` walks the
//! anchored skip combinations of a window; `KSkipNGrams` chains those
//! per-length iterators over a range of gram lengths, grouped by length.

use vstd::prelude::*;

use crate::errors::EstimatorErr;
use crate::ngram_utils::{emit_phases, opt_view, phases_spec};

verus! {

/// The padded view of a token list: `n - 1` copies of each configured
/// pad token around the tokens themselves.
pub open spec fn padded_view(
    tv: Seq<Seq<char>>,
    n: usize,
    pl: Option<Seq<char>>,
    pr: Option<Seq<char>>,
) -> Seq<Seq<char>> {
    let left = match pl {
        Some(pad) => Seq::new((n - 1) as nat, |_t: int| pad),
        None => Seq::<Seq<char>>::empty(),
    };
    let right = match pr {
        Some(pad) => Seq::new((n - 1) as nat, |_t: int| pad),
        None => Seq::<Seq<char>>::empty(),
    };
    left + tv + right
}

/// Frame a token list for grams of degree `n`: `n - 1` copies of the
/// left pad before it and `n - 1` copies of the right pad after it.
/// Fails exactly when `n` is zero.
pub fn pad_items(
    items: &Vec<String>,
    n: usize,
    pad_left: Option<&str>,
    pad_right: Option<&str>,
) -> (r: Result<Vec<String>, EstimatorErr>)
    ensures
        r is Ok <==> n >= 1,
        r matches Ok(v) ==> v.deep_view() == padded_view(
            items.deep_view(),
            n,
            opt_view(pad_left),
            opt_view(pad_right),
        ),
        r matches Err(e) ==> e matches EstimatorErr::InvalidParams(_),
{
    if n < 1 {
        return Err(
            EstimatorErr::InvalidParams("`n` must be greater than or equal to 1".to_owned()),
        );
    }
    let ghost target = padded_view(
        items.deep_view(),
        n,
        opt_view(pad_left),
        opt_view(pad_right),
    );
    let ghost left = match opt_view(pad_left) {
        Some(pad) => Seq::new((n - 1) as nat, |_t: int| pad),
        None => Seq::<Seq<char>>::empty(),
    };
    let ghost right = match opt_view(pad_right) {
        Some(pad) => Seq::new((n - 1) as nat, |_t: int| pad),
        None => Seq::<Seq<char>>::empty(),
    };
    let mut out: Vec<String> = Vec::new();
    match pad_left {
        Some(pad) => {
            let mut j: usize = 0;
            while j < n - 1
                invariant
                    j <= n - 1,
                    left == Seq::new((n - 1) as nat, |_t: int| pad@),
                    out.deep_view() =~= left.take(j as int),
                decreases n - 1 - j,
            {
                let ghost prev = out.deep_view();
                out.push(pad.to_owned());
                proof {
                    assert(out.deep_view() =~~= prev.push(pad@));
                    assert(left.take(j + 1) =~= left.take(j as int).push(left[j as int]));
                }
                j += 1;
            }
            assert(left.take(left.len() as int) =~= left);
        },
        None => {},
    }
    assert(out.deep_view() =~= left);
    let mut i: usize = 0;
    while i < items.len()
        invariant
            i <= items@.len(),
            items.deep_view().len() == items@.len(),
            out.deep_view() =~= left + items.deep_view().take(i as int),
        decreases items@.len() - i,
    {
        let ghost prev = out.deep_view();
        let s = items[i].clone();
        assert(s@ == items@[i as int]@);
        assert(items@[i as int]@ =~= items.deep_view()[i as int]);
        out.push(s);
        proof {
            assert(out.deep_view() =~~= prev.push(items.deep_view()[i as int]));
            assert(items.deep_view().take(i + 1) =~= items.deep_view().take(i as int).push(
                items.deep_view()[i as int],
            ));
            assert(left + items.deep_view().take(i + 1) =~= (left + items.deep_view().take(
                i as int,
            )).push(items.deep_view()[i as int]));
        }
        i += 1;
    }
    assert(items.deep_view().take(items.deep_view().len() as int) =~= items.deep_view());
    assert(out.deep_view() =~= left + items.deep_view());
    let ghost mid = left + items.deep_view();
    match pad_right {
        Some(pad) => {
            let mut j: usize = 0;
            while j < n - 1
                invariant
                    j <= n - 1,
                    right == Seq::new((n - 1) as nat, |_t: int| pad@),
                    out.deep_view() =~= mid + right.take(j as int),
                decreases n - 1 - j,
            {
                let ghost prev = out.deep_view();
                out.push(pad.to_owned());
                proof {
                    assert(out.deep_view() =~~= prev.push(pad@));
                    assert(right.take(j + 1) =~= right.take(j as int).push(right[j as int]));
                    assert(mid + right.take(j + 1) =~= (mid + right.take(j as int)).push(
                        right[j as int],
                    ));
                }
                j += 1;
            }
            assert(right.take(right.len() as int) =~= right);
        },
        None => {},
    }
    assert(out.deep_view() =~= target);
    Ok(out)
}

/// An iterator over the plain sliding windows of degree `n` of a
/// (possibly padded) token list.
pub struct NGramIter {
    grams: Vec<Vec<String>>,
    pos: usize,
}

impl NGramIter {
    /// The full gram list this iterator walks.
    pub closed spec fn spec_grams(&self) -> Seq<Seq<Seq<char>>> {
        self.grams.deep_view()
    }

    /// How many grams have been handed out already.
    pub closed spec fn spec_pos(&self) -> int {
        self.pos as int
    }

    /// Build the iterator: pad when asked, then every window of `n`
    /// consecutive tokens. Fails on a zero degree, and on a padded list
    /// still shorter than one window.
    pub fn new(
        items: &Vec<String>,
        n: usize,
        pad_left: Option<&str>,
        pad_right: Option<&str>,
    ) -> (r: Result<NGramIter, EstimatorErr>)
        ensures
            ({
                let padded = padded_view(
                    items.deep_view(),
                    n,
                    opt_view(pad_left),
                    opt_view(pad_right),
                );
                &&& (r is Ok <==> (n >= 1 && padded.len() >= n))
                &&& (r matches Ok(it) ==> it.spec_grams() == phases_spec(
                    padded,
                    n,
                    n,
                    0,
                    n,
                    None,
                    None,
                ) && it.spec_pos() == 0)
                &&& (r matches Ok(it) ==> it.spec_grams().len() == padded.len() - n + 1
                    && forall|i: int|
                    0 <= i < it.spec_grams().len() ==> #[trigger] it.spec_grams()[i]
                        == padded.subrange(i, i + n))
                &&& (r matches Err(e) ==> (n < 1 ==> e matches EstimatorErr::InvalidParams(_))
                    && (n >= 1 ==> e matches EstimatorErr::InvalidInput(_)))
            }),
    {
        let padded = match pad_items(items, n, pad_left, pad_right) {
            Ok(v) => v,
            Err(e) => {
                return Err(e);
            },
        };
        if padded.len() < n {
            return Err(
                EstimatorErr::InvalidInput("Items length is smaller than `n`".to_owned()),
            );
        }
        let grams = emit_phases(&padded, n, n, 0, n, None, None);
        proof {
            let pv = padded.deep_view();
            crate::ngram_utils::lemma_plain_windows(pv, n);
            assert(phases_spec(pv, n, n, 0, n, None, None) =~= crate::ngram_utils::kskip_spec(
                pv,
                n,
                n,
                0,
                None,
                None,
            ));
        }
        Ok(NGramIter { grams, pos: 0 })
    }

    /// The next window, or `None` once every window has been handed out.
    pub fn next(&mut self) -> (r: Option<Vec<String>>)
        ensures
            final(self).spec_grams() == old(self).spec_grams(),
            old(self).spec_pos() < old(self).spec_grams().len() ==> {
                &&& r matches Some(g) && g.deep_view() == old(self).spec_grams()[old(
                    self,
                ).spec_pos()]
                &&& final(self).spec_pos() == old(self).spec_pos() + 1
            },
            old(self).spec_pos() >= old(self).spec_grams().len() ==> r is None
                && final(self).spec_pos() == old(self).spec_pos(),
    {
        if self.pos < self.grams.len() {
            let g = crate::ngram_utils::clone_gram(&self.grams[self.pos]);
            assert(self.grams@[self.pos as int].deep_view() =~= self.spec_grams()[
                self.pos as int]);
            self.pos += 1;
            Some(g)
        } else {
            None
        }
    }

    /// Every remaining gram, in order.
    pub fn collect_grams(&mut self) -> (r: Vec<Vec<String>>)
        requires
            old(self).spec_pos() <= old(self).spec_grams().len(),
        ensures
            r.deep_view() == old(self).spec_grams().skip(old(self).spec_pos()),
            final(self).spec_pos() == old(self).spec_grams().len(),
    {
        let mut out: Vec<Vec<String>> = Vec::new();
        while self.pos < self.grams.len()
            invariant
                self.grams == old(self).grams,
                old(self).spec_pos() <= self.pos as int <= self.spec_grams().len(),
                self.spec_grams().len() == self.grams@.len(),
                out.deep_view() =~= self.spec_grams().subrange(
                    old(self).spec_pos(),
                    self.pos as int,
                ),
            decreases self.grams@.len() - self.pos,
        {
            let g = crate::ngram_utils::clone_gram(&self.grams[self.pos]);
            assert(self.grams@[self.pos as int].deep_view() =~= self.spec_grams()[
                self.pos as int]);
            out.push(g);
            proof {
                assert(self.spec_grams().subrange(old(self).spec_pos(), self.pos + 1)
                    =~= self.spec_grams().subrange(old(self).spec_pos(), self.pos as int).push(
                    self.spec_grams()[self.pos as int],
                ));
                assert(out.deep_view() =~~= self.spec_grams().subrange(
                    old(self).spec_pos(),
                    self.pos + 1,
                ));
            }
            self.pos += 1;
        }
        proof {
            assert(self.spec_grams().subrange(old(self).spec_pos(), self.spec_grams().len() as int)
                =~= self.spec_grams().skip(old(self).spec_pos()));
        }
        out
    }
}

/// An iterator over the anchored skip combinations of degree `n` with a
/// total skip budget of `max_k`, over a (possibly padded) token list.
pub struct SkipGramIter {
    grams: Vec<Vec<String>>,
    pos: usize,
}

impl SkipGramIter {
    /// The full gram list this iterator walks.
    pub closed spec fn spec_grams(&self) -> Seq<Seq<Seq<char>>> {
        self.grams.deep_view()
    }

    /// How many grams have been handed out already.
    pub closed spec fn spec_pos(&self) -> int {
        self.pos as int
    }

    /// Build the iterator: pad when asked, then every anchored
    /// combination of each window, and the shrinking-window tail. Fails
    /// on a zero degree, and on a padded list shorter than one window of
    /// `n + max_k` tokens.
    pub fn new(
        items: &Vec<String>,
        n: usize,
        max_k: usize,
        pad_left: Option<&str>,
        pad_right: Option<&str>,
    ) -> (r: Result<SkipGramIter, EstimatorErr>)
        ensures
            ({
                let padded = padded_view(
                    items.deep_view(),
                    n,
                    opt_view(pad_left),
                    opt_view(pad_right),
                );
                &&& (r is Ok <==> (n >= 1 && padded.len() >= n + max_k))
                &&& (r matches Ok(it) ==> it.spec_grams() == phases_spec(
                    padded,
                    n,
                    n,
                    max_k,
                    (n + max_k) as usize,
                    None,
                    None,
                ) && it.spec_pos() == 0)
                &&& (r matches Err(e) ==> (n < 1 ==> e matches EstimatorErr::InvalidParams(_))
                    && (n >= 1 ==> e matches EstimatorErr::InvalidInput(_)))
            }),
    {
        let padded = match pad_items(items, n, pad_left, pad_right) {
            Ok(v) => v,
            Err(e) => {
                return Err(e);
            },
        };
        if padded.len() < n || padded.len() - n < max_k {
            return Err(
                EstimatorErr::InvalidInput(
                    "Items length is smaller than `n`+`max_k`".to_owned(),
                ),
            );
        }
        let grams = emit_phases(&padded, n, n, max_k, n + max_k, None, None);
        Ok(SkipGramIter { grams, pos: 0 })
    }

    /// The next gram, or `None` once every gram has been handed out.
    pub fn next(&mut self) -> (r: Option<Vec<String>>)
        ensures
            final(self).spec_grams() == old(self).spec_grams(),
            old(self).spec_pos() < old(self).spec_grams().len() ==> {
                &&& r matches Some(g) && g.deep_view() == old(self).spec_grams()[old(
                    self,
                ).spec_pos()]
                &&& final(self).spec_pos() == old(self).spec_pos() + 1
            },
            old(self).spec_pos() >= old(self).spec_grams().len() ==> r is None
                && final(self).spec_pos() == old(self).spec_pos(),
    {
        if self.pos < self.grams.len() {
            let g = crate::ngram_utils::clone_gram(&self.grams[self.pos]);
            assert(self.grams@[self.pos as int].deep_view() =~= self.spec_grams()[
                self.pos as int]);
            self.pos += 1;
            Some(g)
        } else {
            None
        }
    }

    /// Every remaining gram, in order.
    pub fn collect_grams(&mut self) -> (r: Vec<Vec<String>>)
        requires
            old(self).spec_pos() <= old(self).spec_grams().len(),
        ensures
            r.deep_view() == old(self).spec_grams().skip(old(self).spec_pos()),
            final(self).spec_pos() == old(self).spec_grams().len(),
    {
        let mut out: Vec<Vec<String>> = Vec::new();
        while self.pos < self.grams.len()
            invariant
                self.grams == old(self).grams,
                old(self).spec_pos() <= self.pos as int <= self.spec_grams().len(),
                self.spec_grams().len() == self.grams@.len(),
                out.deep_view() =~= self.spec_grams().subrange(
                    old(self).spec_pos(),
                    self.pos as int,
                ),
            decreases self.grams@.len() - self.pos,
        {
            let g = crate::ngram_utils::clone_gram(&self.grams[self.pos]);
            assert(self.grams@[self.pos as int].deep_view() =~= self.spec_grams()[
                self.pos as int]);
            out.push(g);
            proof {
                assert(self.spec_grams().subrange(old(self).spec_pos(), self.pos + 1)
                    =~= self.spec_grams().subrange(old(self).spec_pos(), self.pos as int).push(
                    self.spec_grams()[self.pos as int],
                ));
                assert(out.deep_view() =~~= self.spec_grams().subrange(
                    old(self).spec_pos(),
                    self.pos + 1,
                ));
            }
            self.pos += 1;
        }
        proof {
            assert(self.spec_grams().subrange(old(self).spec_pos(), self.spec_grams().len() as int)
                =~= self.spec_grams().skip(old(self).spec_pos()));
        }
        out
    }
}

/// The three parameters of the chained generator.
#[derive(Debug, Clone, Copy, PartialEq, Eq, Structural)]
pub struct KSkipNGramsParams {
    pub min_n: usize,
    pub max_n: usize,
    pub max_k: usize,
}

impl KSkipNGramsParams {
    /// Bundle the three parameters.
    pub fn new(min_n: usize, max_n: usize, max_k: usize) -> (r: KSkipNGramsParams)
        ensures
            r.min_n == min_n,
            r.max_n == max_n,
            r.max_k == max_k,
    {
        KSkipNGramsParams { min_n, max_n, max_k }
    }

    /// Wrap the parameters into a generator.
    pub fn build(&mut self) -> (r: KSkipNGrams)
        ensures
            r.params == *old(self),
            *final(self) == *old(self),
    {
        KSkipNGrams { params: *self }
    }
}

/// A generator that chains one per-length iterator for every gram length
/// in its range: all grams of length `min_n` first, then `min_n + 1`,
/// and so on.
#[derive(Debug, Clone)]
pub struct KSkipNGrams {
    pub params: KSkipNGramsParams,
}

/// What the chained generator emits for one gram length.
pub open spec fn tp_sub(
    tv: Seq<Seq<char>>,
    n: usize,
    max_k: usize,
    pl: Option<Seq<char>>,
    pr: Option<Seq<char>>,
) -> Seq<Seq<Seq<char>>> {
    let padded = padded_view(tv, n, pl, pr);
    if max_k == 0 {
        phases_spec(padded, n, n, 0, n, None, None)
    } else {
        phases_spec(padded, n, n, max_k, (n + max_k) as usize, None, None)
    }
}

/// What the chained generator emits from gram length `n` up.
pub open spec fn tp_chain(
    tv: Seq<Seq<char>>,
    max_n: usize,
    max_k: usize,
    pl: Option<Seq<char>>,
    pr: Option<Seq<char>>,
    n: int,
) -> Seq<Seq<Seq<char>>>
    decreases max_n + 1 - n,
{
    if n > max_n {
        Seq::<Seq<Seq<char>>>::empty()
    } else {
        tp_sub(tv, n as usize, max_k, pl, pr) + tp_chain(tv, max_n, max_k, pl, pr, n + 1)
    }
}

/// Whether every per-length iterator in the range can be built.
pub open spec fn tp_fits(
    tv: Seq<Seq<char>>,
    min_n: usize,
    max_n: usize,
    max_k: usize,
    pl: Option<Seq<char>>,
    pr: Option<Seq<char>>,
) -> bool {
    forall|n: int|
        min_n <= n <= max_n ==> (#[trigger] padded_view(tv, n as usize, pl, pr)).len() >= n + (
        if max_k == 0 {
            0int
        } else {
            max_k as int
        })
}

impl KSkipNGrams {
    /// Plain bigrams.
    pub fn new_bigram() -> (r: KSkipNGrams)
        ensures
            r.params == (KSkipNGramsParams { min_n: 2, max_n: 2, max_k: 0 }),
    {
        KSkipNGrams { params: KSkipNGramsParams { min_n: 2, max_n: 2, max_k: 0 } }
    }

    /// Plain n-grams of one degree.
    pub fn new_ngrams(n: usize) -> (r: KSkipNGrams)
        ensures
            r.params == (KSkipNGramsParams { min_n: n, max_n: n, max_k: 0 }),
    {
        KSkipNGrams { params: KSkipNGramsParams { min_n: n, max_n: n, max_k: 0 } }
    }

    /// Every gram length between `min_n` and `max_n`.
    pub fn new_everygrams(min_n: usize, max_n: usize) -> (r: KSkipNGrams)
        ensures
            r.params == (KSkipNGramsParams { min_n, max_n, max_k: 0 }),
    {
        KSkipNGrams { params: KSkipNGramsParams { min_n, max_n, max_k: 0 } }
    }

    /// Skip-grams of one degree with a total skip budget of `k`.
    pub fn new_skipgrams(n: usize, k: usize) -> (r: KSkipNGrams)
        ensures
            r.params == (KSkipNGramsParams { min_n: n, max_n: n, max_k: k }),
    {
        KSkipNGrams { params: KSkipNGramsParams { min_n: n, max_n: n, max_k: k } }
    }

    /// Arbitrary parameters.
    pub fn new(min_n: usize, max_n: usize, max_k: usize) -> (r: KSkipNGrams)
        ensures
            r.params == (KSkipNGramsParams { min_n, max_n, max_k }),
    {
        KSkipNGrams { params: KSkipNGramsParams { min_n, max_n, max_k } }
    }

    /// Generate every gram, grouped by gram length. When the parameters
    /// are in range and every per-length window fits, the generation
    /// succeeds and returns exactly the chained emission.
    pub fn transform(
        &self,
        items: &Vec<String>,
        pad_left: Option<&str>,
        pad_right: Option<&str>,
    ) -> (r: Result<Vec<Vec<String>>, EstimatorErr>)
        ensures
            r is Ok <==> (1 <= self.params.min_n && self.params.min_n <= self.params.max_n
                && tp_fits(
                items.deep_view(),
                self.params.min_n,
                self.params.max_n,
                self.params.max_k,
                opt_view(pad_left),
                opt_view(pad_right),
            )),
            r matches Ok(g) ==> g.deep_view() == tp_chain(
                items.deep_view(),
                self.params.max_n,
                self.params.max_k,
                opt_view(pad_left),
                opt_view(pad_right),
                self.params.min_n as int,
            ),
            (self.params.min_n < 1 || self.params.min_n > self.params.max_n) ==> (
            r matches Err(e) && e matches EstimatorErr::InvalidParams(_)),
    {
        let min_n = self.params.min_n;
        let max_n = self.params.max_n;
        let max_k = self.params.max_k;
        if min_n < 1 {
            return Err(
                EstimatorErr::InvalidParams(
                    "`min_n` must be greater than or equal to 1".to_owned(),
                ),
            );
        }
        if min_n > max_n {
            return Err(
                EstimatorErr::InvalidParams(
                    "`min_n` must be equal to or less than `max_n`".to_owned(),
                ),
            );
        }
        let ghost tv = items.deep_view();
        let ghost plv = opt_view(pad_left);
        let ghost prv = opt_view(pad_right);
        let mut out: Vec<Vec<String>> = Vec::new();
        let mut n: usize = min_n;
        while n <= max_n
            invariant_except_break
                out.deep_view() =~= tp_prefix(tv, max_n, max_k, plv, prv, min_n as int, n as int),
            invariant
                1 <= min_n <= n,
                n <= max_n + 1,
                min_n <= max_n,
                min_n == self.params.min_n,
                max_n == self.params.max_n,
                max_k == self.params.max_k,
                tv == items.deep_view(),
                plv == opt_view(pad_left),
                prv == opt_view(pad_right),
                forall|q: int|
                    min_n <= q < n ==> (#[trigger] padded_view(tv, q as usize, plv, prv)).len()
                        >= q + (if max_k == 0 {
                        0int
                    } else {
                        max_k as int
                    }),
            ensures
                out.deep_view() =~= tp_prefix(
                    tv,
                    max_n,
                    max_k,
                    plv,
                    prv,
                    min_n as int,
                    max_n + 1,
                ),
                tp_fits(tv, min_n, max_n, max_k, plv, prv),
            decreases max_n + 1 - n,
        {
            let ghost before = out.deep_view();
            let sub: Vec<Vec<String>> = if max_k == 0 {
                match NGramIter::new(items, n, pad_left, pad_right) {
                    Ok(mut it) => it.collect_grams(),
                    Err(e) => {
                        proof {
                            if tp_fits(tv, min_n, max_n, max_k, plv, prv) {
                                assert(min_n <= n as int <= max_n);
                                assert(padded_view(tv, (n as int) as usize, plv, prv).len()
                                    >= n as int + 0);
                                assert(padded_view(tv, n, plv, prv).len() >= n);
                            }
                        }
                        return Err(e);
                    },
                }
            } else {
                match SkipGramIter::new(items, n, max_k, pad_left, pad_right) {
                    Ok(mut it) => it.collect_grams(),
                    Err(e) => {
                        proof {
                            if tp_fits(tv, min_n, max_n, max_k, plv, prv) {
                                assert(min_n <= n as int <= max_n);
                                assert(padded_view(tv, (n as int) as usize, plv, prv).len()
                                    >= n as int + max_k);
                                assert(padded_view(tv, n, plv, prv).len() >= n + max_k);
                            }
                        }
                        return Err(e);
                    },
                }
            };
            proof {
                assert(sub.deep_view() == tp_sub(tv, n, max_k, plv, prv)) by {
                    let padded = padded_view(tv, n, plv, prv);
                    assert(padded.skip(0) =~= padded);
                    if max_k == 0 {
                        assert(phases_spec(padded, n, n, 0, n, None, None).skip(0)
                            =~= phases_spec(padded, n, n, 0, n, None, None));
                    } else {
                        assert(phases_spec(
                            padded,
                            n,
                            n,
                            max_k,
                            (n + max_k) as usize,
                            None,
                            None,
                        ).skip(0) =~= phases_spec(
                            padded,
                            n,
                            n,
                            max_k,
                            (n + max_k) as usize,
                            None,
                            None,
                        ));
                    }
                }
            }
            let mut q: usize = 0;
            while q < sub.len()
                invariant
                    q <= sub@.len(),
                    sub.deep_view().len() == sub@.len(),
                    out.deep_view() =~= before + sub.deep_view().take(q as int),
                decreases sub@.len() - q,
            {
                let ghost prev = out.deep_view();
                let g = crate::ngram_utils::clone_gram(&sub[q]);
                assert(sub@[q as int].deep_view() =~= sub.deep_view()[q as int]);
                out.push(g);
                proof {
                    assert(sub.deep_view().take(q + 1) =~= sub.deep_view().take(q as int).push(
                        sub.deep_view()[q as int],
                    ));
                    assert(before + sub.deep_view().take(q + 1) =~= (before
                        + sub.deep_view().take(q as int)).push(sub.deep_view()[q as int]));
                    assert(out.deep_view() =~~= prev.push(sub.deep_view()[q as int]));
                }
                q += 1;
            }
            proof {
                assert(sub.deep_view().take(sub.deep_view().len() as int) =~= sub.deep_view());
                lemma_tp_prefix_step(tv, max_n, max_k, plv, prv, min_n as int, n as int);
                assert(out.deep_view() =~= tp_prefix(
                    tv,
                    max_n,
                    max_k,
                    plv,
                    prv,
                    min_n as int,
                    n + 1,
                ));
            }
            if n == max_n {
                proof {
                    assert forall|q: int| min_n <= q <= max_n implies (#[trigger] padded_view(
                        tv,
                        q as usize,
                        plv,
                        prv,
                    )).len() >= q + (if max_k == 0 {
                        0int
                    } else {
                        max_k as int
                    }) by {
                        if q < n {
                        } else {
                            assert(q == n);
                        }
                    }
                }
                break ;
            }
            n += 1;
        }
        proof {
            lemma_tp_prefix_full(tv, max_n, max_k, plv, prv, min_n as int);
        }
        Ok(out)
    }
}

/// The part of the chain covering gram lengths `lo` up to (excluding)
/// `hi`.
pub open spec fn tp_prefix(
    tv: Seq<Seq<char>>,
    max_n: usize,
    max_k: usize,
    pl: Option<Seq<char>>,
    pr: Option<Seq<char>>,
    lo: int,
    hi: int,
) -> Seq<Seq<Seq<char>>>
    decreases hi - lo,
{
    if lo >= hi || lo > max_n {
        Seq::<Seq<Seq<char>>>::empty()
    } else {
        tp_sub(tv, lo as usize, max_k, pl, pr) + tp_prefix(tv, max_n, max_k, pl, pr, lo + 1, hi)
    }
}

/// Extending the covered prefix by one gram length appends that length's
/// grams.
proof fn lemma_tp_prefix_step(
    tv: Seq<Seq<char>>,
    max_n: usize,
    max_k: usize,
    pl: Option<Seq<char>>,
    pr: Option<Seq<char>>,
    lo: int,
    n: int,
)
    requires
        1 <= lo <= n <= max_n,
    ensures
        tp_prefix(tv, max_n, max_k, pl, pr, lo, n + 1) =~= tp_prefix(
            tv,
            max_n,
            max_k,
            pl,
            pr,
            lo,
            n,
        ) + tp_sub(tv, n as usize, max_k, pl, pr),
    decreases n - lo,
{
    if lo == n {
        assert(tp_prefix(tv, max_n, max_k, pl, pr, lo, n) =~= Seq::<Seq<Seq<char>>>::empty());
        assert(tp_prefix(tv, max_n, max_k, pl, pr, n + 1, n + 1)
            =~= Seq::<Seq<Seq<char>>>::empty());
    } else {
        lemma_tp_prefix_step(tv, max_n, max_k, pl, pr, lo + 1, n);
    }
}

/// The prefix covering the whole range is the whole chain.
proof fn lemma_tp_prefix_full(
    tv: Seq<Seq<char>>,
    max_n: usize,
    max_k: usize,
    pl: Option<Seq<char>>,
    pr: Option<Seq<char>>,
    lo: int,
)
    requires
        1 <= lo,
    ensures
        tp_prefix(tv, max_n, max_k, pl, pr, lo, max_n + 1) =~= tp_chain(
            tv,
            max_n,
            max_k,
            pl,
            pr,
            lo,
        ),
    decreases max_n + 1 - lo,
{
    if lo > max_n {
        assert(tp_prefix(tv, max_n, max_k, pl, pr, lo, max_n + 1)
            =~= Seq::<Seq<Seq<char>>>::empty());
        assert(tp_chain(tv, max_n, max_k, pl, pr, lo) =~= Seq::<Seq<Seq<char>>>::empty());
    } else {
        lemma_tp_prefix_full(tv, max_n, max_k, pl, pr, lo + 1);
    }
}

} // verus!
