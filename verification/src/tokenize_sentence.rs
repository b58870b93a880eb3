//! Sentence-level tokenizers.

use unicode_segmentation::UnicodeSegmentation;
use vstd::prelude::*;

use crate::chars::{char_is_whitespace, chars_string, str_chars};
use crate::errors::EstimatorErr;
use crate::tokenize::Tokenizer;

verus! {

/// The sentence segments `split_sentence_bounds` produces for a text: a
/// pure function of the text, following the sentence boundary rules of
/// UAX #29.
pub uninterp spec fn sentence_bounds_of(text: Seq<char>) -> Seq<Seq<char>>;

/// Relies on
/// `unicode_segmentation::UnicodeSegmentation::split_sentence_bounds`:
/// the segments depend on the text alone, and their concatenation is
/// documented to be exactly the original string.
#[verifier::external_body]
fn split_sentence_bounds_vec(text: &str) -> (r: Vec<String>)
    ensures
        r.deep_view() == sentence_bounds_of(text@),
        r.deep_view().flatten() == text@,
{
    text.split_sentence_bounds().map(|s| s.to_string()).collect()
}

/// Unicode sentence tokenizer: sentence boundaries per UAX #29.
#[derive(Debug, Clone)]
pub struct UnicodeSentenceTokenizer {
    pub params: UnicodeSentenceTokenizerParams,
}

/// Builder for the unicode sentence tokenizer; it has no knobs.
#[derive(Debug, Clone, PartialEq, Eq, Structural)]
pub struct UnicodeSentenceTokenizerParams {}

impl UnicodeSentenceTokenizerParams {
    /// Build the tokenizer; this cannot fail.
    pub fn build(&mut self) -> (r: Result<UnicodeSentenceTokenizer, EstimatorErr>)
        ensures
            r is Ok,
    {
        Ok(UnicodeSentenceTokenizer { params: UnicodeSentenceTokenizerParams {  } })
    }
}

impl Default for UnicodeSentenceTokenizerParams {
    fn default() -> (r: UnicodeSentenceTokenizerParams) {
        UnicodeSentenceTokenizerParams {  }
    }
}

impl Default for UnicodeSentenceTokenizer {
    /// Create a new instance.
    fn default() -> (r: UnicodeSentenceTokenizer) {
        UnicodeSentenceTokenizer { params: UnicodeSentenceTokenizerParams {  } }
    }
}

impl UnicodeSentenceTokenizer {
    /// The sentence segments of `text`, whose concatenation is `text`.
    pub fn tokenize_list(&self, text: &str) -> (r: Vec<String>)
        ensures
            r.deep_view() == sentence_bounds_of(text@),
            r.deep_view().flatten() == text@,
    {
        split_sentence_bounds_vec(text)
    }
}

impl Tokenizer for UnicodeSentenceTokenizer {
    fn tokenize(&self, text: &str) -> Vec<String> {
        self.tokenize_list(text)
    }
}

/// Punctuation sentence tokenizer: a sentence ends after a punctuation
/// character and its trailing whitespace.
#[derive(Debug, Clone)]
pub struct PunctuationTokenizer {
    pub params: PunctuationTokenizerParams,
}

/// Builder for the punctuation sentence tokenizer. Only the first
/// character of each configured punctuation string is used.
#[derive(Debug, Clone)]
pub struct PunctuationTokenizerParams {
    punctuation: Vec<String>,
}

impl PunctuationTokenizerParams {
    /// The punctuation strings the builder currently holds.
    pub closed spec fn spec_punctuation(&self) -> Seq<Seq<char>> {
        self.punctuation.deep_view()
    }

    /// Replace the punctuation list.
    pub fn punctuation(&mut self, punctuation: Vec<String>) -> (r: PunctuationTokenizerParams)
        ensures
            final(self).spec_punctuation() == punctuation.deep_view(),
            r.spec_punctuation() == punctuation.deep_view(),
    {
        self.punctuation = punctuation;
        let mut ps: Vec<String> = Vec::new();
        let mut i: usize = 0;
        while i < self.punctuation.len()
            invariant
                i <= self.punctuation@.len(),
                ps.deep_view() =~= self.spec_punctuation().take(i as int),
            decreases self.punctuation@.len() - i,
        {
            let ghost prev = ps.deep_view();
            let s = self.punctuation[i].clone();
            assert(s@ =~= self.spec_punctuation()[i as int]);
            ps.push(s);
            proof {
                assert(ps.deep_view() =~~= prev.push(self.spec_punctuation()[i as int]));
                assert(self.spec_punctuation().take(i + 1) =~= self.spec_punctuation().take(
                    i as int,
                ).push(self.spec_punctuation()[i as int]));
            }
            i += 1;
        }
        assert(self.spec_punctuation().take(self.spec_punctuation().len() as int)
            =~= self.spec_punctuation());
        PunctuationTokenizerParams { punctuation: ps }
    }

    /// Build the tokenizer; this cannot fail.
    pub fn build(&mut self) -> (r: Result<PunctuationTokenizer, EstimatorErr>)
        ensures
            r matches Ok(t) && t.params.spec_punctuation() == old(self).spec_punctuation(),
            *final(self) == *old(self),
    {
        let mut ps: Vec<String> = Vec::new();
        let mut i: usize = 0;
        while i < self.punctuation.len()
            invariant
                i <= self.punctuation@.len(),
                ps.deep_view() =~= self.spec_punctuation().take(i as int),
            decreases self.punctuation@.len() - i,
        {
            let ghost prev = ps.deep_view();
            let s = self.punctuation[i].clone();
            assert(s@ =~= self.spec_punctuation()[i as int]);
            ps.push(s);
            proof {
                assert(ps.deep_view() =~~= prev.push(self.spec_punctuation()[i as int]));
                assert(self.spec_punctuation().take(i + 1) =~= self.spec_punctuation().take(
                    i as int,
                ).push(self.spec_punctuation()[i as int]));
            }
            i += 1;
        }
        assert(self.spec_punctuation().take(self.spec_punctuation().len() as int)
            =~= self.spec_punctuation());
        Ok(PunctuationTokenizer { params: PunctuationTokenizerParams { punctuation: ps } })
    }
}

impl Default for PunctuationTokenizerParams {
    /// Sentences end at a period, exclamation or question mark.
    fn default() -> (r: PunctuationTokenizerParams)
        ensures
            r.spec_punctuation() =~= seq!["."@, "!"@, "?"@],
    {
        let mut ps: Vec<String> = Vec::new();
        ps.push(".".to_owned());
        ps.push("!".to_owned());
        ps.push("?".to_owned());
        let r = PunctuationTokenizerParams { punctuation: ps };
        assert(r.spec_punctuation() =~~= seq!["."@, "!"@, "?"@]);
        r
    }
}

impl Default for PunctuationTokenizer {
    /// A tokenizer over the default punctuation.
    fn default() -> (r: PunctuationTokenizer)
        ensures
            r.params.spec_punctuation() =~= seq!["."@, "!"@, "?"@],
    {
        let mut params = PunctuationTokenizerParams::default();
        match params.build() {
            Ok(t) => t,
            Err(_) => vstd::pervasive::unreached(),
        }
    }
}

/// Split a character stream into sentence spans: a span ends once a
/// punctuation character has been seen and its trailing whitespace runs
/// out. The spans concatenate back to the input and none is empty.
fn punct_spans(cs: &Vec<char>, puncts: &Vec<char>) -> (r: Vec<Vec<char>>)
    ensures
        r.deep_view().flatten() == cs@,
        forall|k: int| 0 <= k < r.deep_view().len() ==> (#[trigger] r.deep_view()[k]).len() > 0,
{
    let mut out: Vec<Vec<char>> = Vec::new();
    let mut cur: Vec<char> = Vec::new();
    let mut seen: bool = false;
    let mut i: usize = 0;
    proof {
        assert(out.deep_view() =~= Seq::<Seq<char>>::empty());
        assert(Seq::<Seq<char>>::empty().flatten() =~= Seq::<char>::empty());
        assert(cs@.take(0) =~= Seq::<char>::empty());
    }
    while i < cs.len()
        invariant
            i <= cs@.len(),
            out.deep_view().flatten() + cur@ =~= cs@.take(i as int),
            forall|k: int|
                0 <= k < out.deep_view().len() ==> (#[trigger] out.deep_view()[k]).len() > 0,
            seen ==> cur@.len() > 0,
        decreases cs@.len() - i,
    {
        let c = cs[i];
        if seen && !char_is_whitespace(c) {
            let ghost prev = out.deep_view();
            out.push(cur);
            cur = Vec::new();
            seen = false;
            proof {
                assert(out.deep_view() =~~= prev.push(out.deep_view().last()));
                prev.lemma_flatten_push(out.deep_view().last());
            }
        }
        cur.push(c);
        if !seen {
            let mut j: usize = 0;
            let mut is_p = false;
            while j < puncts.len()
                invariant
                    j <= puncts@.len(),
                decreases puncts@.len() - j,
            {
                if puncts[j] == c {
                    is_p = true;
                }
                j += 1;
            }
            if is_p {
                seen = true;
            }
        }
        proof {
            assert(cs@.take(i + 1) =~= cs@.take(i as int).push(cs@[i as int]));
            assert(out.deep_view().flatten() + cur@ =~= cs@.take(i + 1));
        }
        i += 1;
    }
    assert(cs@.take(cs@.len() as int) =~= cs@);
    if cur.len() > 0 {
        let ghost prev = out.deep_view();
        out.push(cur);
        proof {
            assert(out.deep_view() =~~= prev.push(out.deep_view().last()));
            prev.lemma_flatten_push(out.deep_view().last());
        }
    } else {
        assert(out.deep_view().flatten() + cur@ =~= out.deep_view().flatten());
    }
    out
}

impl PunctuationTokenizer {
    /// The sentence spans of `text`: they concatenate back to the text
    /// and none is empty.
    pub fn tokenize_list(&self, text: &str) -> (r: Vec<String>)
        ensures
            r.deep_view().flatten() == text@,
            forall|k: int|
                0 <= k < r.deep_view().len() ==> (#[trigger] r.deep_view()[k]).len() > 0,
    {
        let cs = str_chars(text);
        let mut puncts: Vec<char> = Vec::new();
        let mut i: usize = 0;
        while i < self.params.punctuation.len()
            invariant
                i <= self.params.punctuation@.len(),
            decreases self.params.punctuation@.len() - i,
        {
            let pcs = str_chars(&self.params.punctuation[i]);
            if pcs.len() > 0 {
                puncts.push(pcs[0]);
            }
            i += 1;
        }
        let spans = punct_spans(&cs, &puncts);
        let mut out: Vec<String> = Vec::new();
        let mut k: usize = 0;
        while k < spans.len()
            invariant
                k <= spans@.len(),
                spans.deep_view().len() == spans@.len(),
                out.deep_view() =~= spans.deep_view().take(k as int),
            decreases spans@.len() - k,
        {
            let ghost prev = out.deep_view();
            let s = chars_string(&spans[k]);
            assert(s@ =~= spans.deep_view()[k as int]);
            out.push(s);
            proof {
                assert(out.deep_view() =~~= prev.push(spans.deep_view()[k as int]));
                assert(spans.deep_view().take(k + 1) =~= spans.deep_view().take(k as int).push(
                    spans.deep_view()[k as int],
                ));
            }
            k += 1;
        }
        proof {
            assert(spans.deep_view().take(spans.deep_view().len() as int) =~= spans.deep_view());
            assert(out.deep_view() =~= spans.deep_view());
        }
        out
    }
}

impl Tokenizer for PunctuationTokenizer {
    fn tokenize(&self, text: &str) -> Vec<String> {
        self.tokenize_list(text)
    }
}

} // verus!
