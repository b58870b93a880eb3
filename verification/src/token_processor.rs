//! Estimators that operate on token streams, such as stop-word
//! filtering.

use vstd::prelude::*;

use crate::chars::{chars_eq, str_chars};
use crate::errors::EstimatorErr;

verus! {

/// The one capability of a token processor: turn a token list into
/// another token list.
pub trait TokenProcessor {
    fn transform(&self, tokens: &Vec<String>) -> Vec<String>;
}

/// Drops every token that appears in a fixed stop-word list.
#[derive(Debug, Clone)]
pub struct StopWordFilter {
    pub params: StopWordFilterParams,
}

/// Builder for the stop-word filter.
#[derive(Debug, Clone)]
pub struct StopWordFilterParams {
    stop_words: Vec<Vec<char>>,
}

impl StopWordFilterParams {
    /// The stop words the builder currently holds.
    pub closed spec fn spec_stop_words(&self) -> Seq<Seq<char>> {
        self.stop_words.deep_view()
    }

    /// Replace the stop-word list.
    pub fn stop_words(&mut self, value: Vec<&str>) -> (r: StopWordFilterParams)
        ensures
            final(self).spec_stop_words() == value.deep_view(),
            r.spec_stop_words() == value.deep_view(),
    {
        let mut ws: Vec<Vec<char>> = Vec::new();
        let mut i: usize = 0;
        while i < value.len()
            invariant
                i <= value@.len(),
                ws.deep_view() =~= value.deep_view().take(i as int),
            decreases value@.len() - i,
        {
            let ghost prev = ws.deep_view();
            let w = str_chars(value[i]);
            assert(w@ =~= value.deep_view()[i as int]);
            ws.push(w);
            proof {
                assert(ws.deep_view() =~~= prev.push(value.deep_view()[i as int]));
                assert(value.deep_view().take(i + 1) =~= value.deep_view().take(i as int).push(
                    value.deep_view()[i as int],
                ));
            }
            i += 1;
        }
        assert(value.deep_view().take(value.deep_view().len() as int) =~= value.deep_view());
        let mut ws2: Vec<Vec<char>> = Vec::new();
        let mut j: usize = 0;
        while j < ws.len()
            invariant
                j <= ws@.len(),
                ws2.deep_view() =~= ws.deep_view().take(j as int),
            decreases ws@.len() - j,
        {
            let ghost prev = ws2.deep_view();
            let w = crate::chars::clone_chars_vec(&ws[j]);
            assert(w@ =~= ws.deep_view()[j as int]);
            ws2.push(w);
            proof {
                assert(ws2.deep_view() =~~= prev.push(ws.deep_view()[j as int]));
                assert(ws.deep_view().take(j + 1) =~= ws.deep_view().take(j as int).push(
                    ws.deep_view()[j as int],
                ));
            }
            j += 1;
        }
        assert(ws.deep_view().take(ws.deep_view().len() as int) =~= ws.deep_view());
        self.stop_words = ws;
        StopWordFilterParams { stop_words: ws2 }
    }

    /// Build the filter; this cannot fail.
    pub fn build(&mut self) -> (r: Result<StopWordFilter, EstimatorErr>)
        ensures
            r matches Ok(f) && f.params.spec_stop_words() == old(self).spec_stop_words(),
            *final(self) == *old(self),
    {
        let mut ws: Vec<Vec<char>> = Vec::new();
        let mut j: usize = 0;
        while j < self.stop_words.len()
            invariant
                j <= self.stop_words@.len(),
                ws.deep_view() =~= self.spec_stop_words().take(j as int),
            decreases self.stop_words@.len() - j,
        {
            let ghost prev = ws.deep_view();
            let w = crate::chars::clone_chars_vec(&self.stop_words[j]);
            assert(w@ =~= self.spec_stop_words()[j as int]);
            ws.push(w);
            proof {
                assert(ws.deep_view() =~~= prev.push(self.spec_stop_words()[j as int]));
                assert(self.spec_stop_words().take(j + 1) =~= self.spec_stop_words().take(
                    j as int,
                ).push(self.spec_stop_words()[j as int]));
            }
            j += 1;
        }
        assert(self.spec_stop_words().take(self.spec_stop_words().len() as int)
            =~= self.spec_stop_words());
        Ok(StopWordFilter { params: StopWordFilterParams { stop_words: ws } })
    }
}

impl Default for StopWordFilterParams {
    /// A small default list of English stop words.
    fn default() -> (r: StopWordFilterParams)
        ensures
            r.spec_stop_words() =~= seq!["and"@, "or"@, "this"@],
    {
        let mut ws: Vec<Vec<char>> = Vec::new();
        ws.push(str_chars("and"));
        ws.push(str_chars("or"));
        ws.push(str_chars("this"));
        let r = StopWordFilterParams { stop_words: ws };
        assert(r.spec_stop_words() =~~= seq!["and"@, "or"@, "this"@]);
        r
    }
}

impl Default for StopWordFilter {
    /// A filter over the default stop-word list.
    fn default() -> (r: StopWordFilter)
        ensures
            r.params.spec_stop_words() =~= seq!["and"@, "or"@, "this"@],
    {
        let mut params = StopWordFilterParams::default();
        match params.build() {
            Ok(f) => f,
            Err(_) => vstd::pervasive::unreached(),
        }
    }
}

impl StopWordFilter {
    /// Keep exactly the tokens that are not stop words, in order.
    pub fn filter_tokens(&self, tokens: &Vec<String>) -> (r: Vec<String>)
        ensures
            r.deep_view() == tokens.deep_view().filter(
                |t: Seq<char>| !self.params.spec_stop_words().contains(t),
            ),
    {
        let ghost dv = tokens.deep_view();
        let ghost pred = |t: Seq<char>| !self.params.spec_stop_words().contains(t);
        let mut out: Vec<String> = Vec::new();
        let mut i: usize = 0;
        proof {
            assert(dv.take(0) =~= Seq::<Seq<char>>::empty());
            assert(dv.take(0).filter(pred) =~= Seq::<Seq<char>>::empty()) by {
                reveal(Seq::filter);
            }
        }
        while i < tokens.len()
            invariant
                i <= tokens@.len(),
                dv == tokens.deep_view(),
                dv.len() == tokens@.len(),
                pred == (|t: Seq<char>| !self.params.spec_stop_words().contains(t)),
                out.deep_view() =~= dv.take(i as int).filter(pred),
            decreases tokens@.len() - i,
        {
            let ghost tv = dv[i as int];
            assert(tokens@[i as int]@ =~= tv);
            let cs = str_chars(&tokens[i]);
            let mut stop = false;
            let mut j: usize = 0;
            while j < self.params.stop_words.len()
                invariant
                    j <= self.params.stop_words@.len(),
                    cs@ == tv,
                    stop ==> self.params.spec_stop_words().contains(tv),
                    !stop ==> forall|q: int|
                        0 <= q < j ==> self.params.spec_stop_words()[q] != tv,
                decreases self.params.stop_words@.len() - j,
            {
                assert(self.params.stop_words@[j as int]@ =~= self.params.spec_stop_words()[
                    j as int]);
                if chars_eq(&self.params.stop_words[j], &cs) {
                    stop = true;
                    assert(self.params.spec_stop_words().contains(tv));
                }
                j += 1;
            }
            proof {
                if !stop {
                    assert(!self.params.spec_stop_words().contains(tv));
                }
            }
            if !stop {
                out.push(tokens[i].clone());
            }
            proof {
                assert(dv.take(i + 1) =~= dv.take(i as int).push(tv));
                assert(dv.take(i + 1).filter(pred) == if pred(tv) {
                    dv.take(i as int).filter(pred).push(tv)
                } else {
                    dv.take(i as int).filter(pred)
                }) by {
                    reveal(Seq::filter);
                    assert(dv.take(i + 1).drop_last() =~= dv.take(i as int));
                }
                assert(out.deep_view() =~~= dv.take(i + 1).filter(pred));
            }
            i += 1;
        }
        assert(dv.take(dv.len() as int) =~= dv);
        out
    }
}

impl TokenProcessor for StopWordFilter {
    fn transform(&self, tokens: &Vec<String>) -> Vec<String> {
        self.filter_tokens(tokens)
    }
}

} // verus!
