//! Word-level tokenizers.
//!
//! Every tokenizer turns a borrowed text into a list of owned tokens
//! through the one `Tokenizer` capability that the vectorizers consume.

use unicode_segmentation::UnicodeSegmentation;
use vstd::prelude::*;

use crate::chars::{
    char_is_alphanumeric, char_is_ascii_punct, char_is_numeric, char_is_whitespace, chars_string,
    concat_chars, find_char, is_space_seq, str_chars, str_eq, subrange_chars,
};
use crate::errors::EstimatorErr;

verus! {

/// The one capability the vectorizers ask of a tokenizer: split a text
/// into a token list. Each call is independent of every other.
pub trait Tokenizer {
    fn tokenize(&self, text: &str) -> Vec<String>;
}

/// The word segments `split_word_bounds` produces for a text: a pure
/// function of the text, following the word boundary rules of UAX #29.
pub uninterp spec fn word_bounds_of(text: Seq<char>) -> Seq<Seq<char>>;

/// Relies on `unicode_segmentation::UnicodeSegmentation::split_word_bounds`:
/// the segments depend on the text alone, and their concatenation is
/// documented to be exactly the original string.
#[verifier::external_body]
pub(crate) fn split_word_bounds_vec(text: &str) -> (r: Vec<String>)
    ensures
        r.deep_view() == word_bounds_of(text@),
        r.deep_view().flatten() == text@,
{
    text.split_word_bounds().map(|s| s.to_string()).collect()
}

/// The words `unicode_words` produces for a text: a pure function of the
/// text, following the word boundary rules of UAX #29 with non-word
/// segments dropped.
pub uninterp spec fn unicode_words_of(text: Seq<char>) -> Seq<Seq<char>>;

/// Relies on `unicode_segmentation::UnicodeSegmentation::unicode_words`:
/// the words depend on the text alone.
#[verifier::external_body]
fn unicode_words_vec(text: &str) -> (r: Vec<String>)
    ensures
        r.deep_view() == unicode_words_of(text@),
{
    text.unicode_words().map(|s| s.to_string()).collect()
}

/// Whether the regex engine accepts a pattern: a property of the pattern
/// alone.
pub uninterp spec fn regex_valid(pattern: Seq<char>) -> bool;

/// Relies on `regex::Regex::new`: whether a pattern compiles depends on
/// the pattern alone; on rejection the error's message is returned.
#[verifier::external_body]
fn regex_check(pattern: &str) -> (r: Option<String>)
    ensures
        r is None <==> regex_valid(pattern@),
{
    match regex::Regex::new(pattern) {
        Ok(_) => None,
        Err(e) => Some(format!("{}", e)),
    }
}

/// The successive non-overlapping matches of a pattern in a text,
/// leftmost first: a pure function of pattern and text.
pub uninterp spec fn regex_find_all(pattern: Seq<char>, text: Seq<char>) -> Seq<Seq<char>>;

/// Relies on `regex::Regex::new` and `Regex::find_iter`: the matches of a
/// valid pattern, documented as the successive non-overlapping matches,
/// leftmost first; a function of pattern and text alone.
#[verifier::external_body]
fn regex_find_tokens(pattern: &str, text: &str) -> (r: Vec<String>)
    requires
        regex_valid(pattern@),
    ensures
        r.deep_view() == regex_find_all(pattern@, text@),
{
    let re = regex::Regex::new(pattern).unwrap();
    re.find_iter(text).map(|m| m.as_str().to_string()).collect()
}

/// Regular expression tokenizer: the tokens of a text are the matches of
/// a fixed pattern.
#[derive(Debug, Clone)]
pub struct RegexpTokenizer {
    pattern: String,
}

/// Builder for the regexp tokenizer.
#[derive(Debug, Clone)]
pub struct RegexpTokenizerParams {
    pattern: String,
}

impl RegexpTokenizerParams {
    /// The pattern the builder currently holds.
    pub closed spec fn spec_pattern(&self) -> Seq<char> {
        self.pattern@
    }

    /// Replace the pattern.
    pub fn pattern(&mut self, value: &str) -> (r: RegexpTokenizerParams)
        ensures
            final(self).spec_pattern() == value@,
            r.spec_pattern() == value@,
    {
        self.pattern = value.to_owned();
        RegexpTokenizerParams { pattern: self.pattern.clone() }
    }

    /// Compile the pattern into a tokenizer. Fails exactly when the regex
    /// engine rejects the pattern.
    pub fn build(&mut self) -> (r: Result<RegexpTokenizer, EstimatorErr>)
        ensures
            *final(self) == *old(self),
            r is Ok <==> regex_valid(old(self).spec_pattern()),
            r matches Ok(t) ==> t.spec_pattern() == old(self).spec_pattern(),
            r matches Err(e) ==> e matches EstimatorErr::RegexErr(_),
    {
        match regex_check(&self.pattern) {
            None => Ok(RegexpTokenizer { pattern: self.pattern.clone() }),
            Some(msg) => Err(EstimatorErr::RegexErr(msg)),
        }
    }
}

impl Default for RegexpTokenizerParams {
    /// The default pattern keeps runs of at least two word characters.
    fn default() -> (r: RegexpTokenizerParams)
        ensures
            r.spec_pattern() == "\\b\\w\\w+\\b"@,
    {
        RegexpTokenizerParams { pattern: "\\b\\w\\w+\\b".to_owned() }
    }
}

impl RegexpTokenizer {
    /// The pattern this tokenizer was built from.
    pub closed spec fn spec_pattern(&self) -> Seq<char> {
        self.pattern@
    }

    /// The pattern, as a string.
    pub fn pattern(&self) -> (r: String)
        ensures
            r@ == self.spec_pattern(),
    {
        self.pattern.clone()
    }

    /// The matches of the pattern in `text`, in order. `build` only hands
    /// out valid patterns, for which this is exactly `regex_find_all`.
    pub fn tokenize_list(&self, text: &str) -> (r: Vec<String>)
        ensures
            regex_valid(self.spec_pattern()) ==> r.deep_view() == regex_find_all(
                self.spec_pattern(),
                text@,
            ),
    {
        match regex_check(&self.pattern) {
            None => regex_find_tokens(&self.pattern, text),
            Some(_) => Vec::new(),
        }
    }
}

impl Tokenizer for RegexpTokenizer {
    fn tokenize(&self, text: &str) -> Vec<String> {
        self.tokenize_list(text)
    }
}

impl Default for RegexpTokenizer {
    /// A tokenizer over the default pattern: runs of at least two word
    /// characters.
    fn default() -> (r: RegexpTokenizer)
        ensures
            r.spec_pattern() == "\\b\\w\\w+\\b"@,
    {
        RegexpTokenizer { pattern: "\\b\\w\\w+\\b".to_owned() }
    }
}

/// Unicode segmentation tokenizer: word boundaries per UAX #29, either
/// keeping all non-space segments (`word_bounds`) or only the words.
#[derive(Debug, Clone)]
pub struct UnicodeSegmentTokenizer {
    pub word_bounds: bool,
}

impl UnicodeSegmentTokenizer {
    /// Create a new instance.
    pub fn new(word_bounds: bool) -> (r: UnicodeSegmentTokenizer)
        ensures
            r.word_bounds == word_bounds,
    {
        UnicodeSegmentTokenizer { word_bounds }
    }

    /// Tokenize a string: with `word_bounds`, every boundary segment but
    /// the single spaces; without, the words alone.
    pub fn tokenize_list(&self, text: &str) -> (r: Vec<String>)
        ensures
            !self.word_bounds ==> r.deep_view() == unicode_words_of(text@),
            self.word_bounds ==> r.deep_view() == word_bounds_of(text@).filter(
                |t: Seq<char>| !is_space_seq(t),
            ),
    {
        if self.word_bounds {
            let toks = split_word_bounds_vec(text);
            let ghost dv = toks.deep_view();
            let ghost pred = |t: Seq<char>| !is_space_seq(t);
            let mut out: Vec<String> = Vec::new();
            let mut i: usize = 0;
            proof {
                assert(dv.take(0) =~= Seq::<Seq<char>>::empty());
                assert(dv.take(0).filter(pred) =~= Seq::<Seq<char>>::empty()) by {
                    reveal(Seq::filter);
                }
            }
            while i < toks.len()
                invariant
                    i <= toks@.len(),
                    dv == toks.deep_view(),
                    dv.len() == toks@.len(),
                    pred == |t: Seq<char>| !is_space_seq(t),
                    out.deep_view() =~= dv.take(i as int).filter(pred),
                decreases toks@.len() - i,
            {
                let ghost tv = dv[i as int];
                assert(toks@[i as int]@ =~= tv);
                let cs = str_chars(&toks[i]);
                if !(cs.len() == 1 && cs[0] == ' ') {
                    out.push(toks[i].clone());
                } else {
                    assert(is_space_seq(tv));
                }
                proof {
                    assert(dv.take(i + 1) =~= dv.take(i as int).push(tv));
                    assert(dv.take(i + 1).filter(pred) == if pred(tv) {
                        dv.take(i as int).filter(pred).push(tv)
                    } else {
                        dv.take(i as int).filter(pred)
                    }) by {
                        reveal(Seq::filter);
                        assert(dv.take(i + 1).drop_last() =~= dv.take(i as int));
                    }
                    assert(out.deep_view() =~~= dv.take(i + 1).filter(pred));
                }
                i += 1;
            }
            assert(dv.take(dv.len() as int) =~= dv);
            out
        } else {
            unicode_words_vec(text)
        }
    }
}

impl Tokenizer for UnicodeSegmentTokenizer {
    fn tokenize(&self, text: &str) -> Vec<String> {
        self.tokenize_list(text)
    }
}

/// Builder for the unicode segmentation tokenizer.
#[derive(Debug, Clone)]
pub struct UnicodeSegmentTokenizerParams {
    params: UnicodeSegmentTokenizer,
}

impl UnicodeSegmentTokenizerParams {
    /// The flag the builder currently holds.
    pub closed spec fn spec_word_bounds(&self) -> bool {
        self.params.word_bounds
    }

    /// Choose between all boundary segments and words only.
    pub fn word_bounds(&mut self, value: bool) -> (r: UnicodeSegmentTokenizerParams)
        ensures
            final(self).spec_word_bounds() == value,
            r.spec_word_bounds() == value,
    {
        self.params.word_bounds = value;
        UnicodeSegmentTokenizerParams {
            params: UnicodeSegmentTokenizer { word_bounds: value },
        }
    }

    /// Build the tokenizer; this cannot fail.
    pub fn build(&mut self) -> (r: Result<UnicodeSegmentTokenizer, EstimatorErr>)
        ensures
            *final(self) == *old(self),
            r matches Ok(t) && t.word_bounds == old(self).spec_word_bounds(),
    {
        Ok(UnicodeSegmentTokenizer { word_bounds: self.params.word_bounds })
    }
}

impl Default for UnicodeSegmentTokenizerParams {
    /// By default all boundary segments are kept.
    fn default() -> (r: UnicodeSegmentTokenizerParams)
        ensures
            r.spec_word_bounds() == true,
    {
        UnicodeSegmentTokenizerParams { params: UnicodeSegmentTokenizer { word_bounds: true } }
    }
}

impl Default for UnicodeSegmentTokenizer {
    /// By default all boundary segments are kept.
    fn default() -> (r: UnicodeSegmentTokenizer)
        ensures
            r.word_bounds == true,
    {
        UnicodeSegmentTokenizer { word_bounds: true }
    }
}

/// The vtext tokenizer: unicode word boundaries with further rules on
/// top. Runs of one repeated ASCII punctuation character merge into one
/// token; English and French contractions split at the apostrophe; short
/// infix patterns (dashes, at-signs, ampersands between alphanumerics,
/// slashes and colons between digits) merge back into one token.
///
/// The language is `"en"`, `"fr"`, or `"any"`; building with any other
/// code silently falls back to `"any"`.
#[derive(Debug, Clone)]
pub struct VTextTokenizer {
    pub lang: String,
}

/// Builder for the vtext tokenizer.
#[derive(Debug, Clone)]
pub struct VTextTokenizerParams {
    lang: String,
}

impl VTextTokenizerParams {
    /// The language code the builder currently holds.
    pub closed spec fn spec_lang(&self) -> Seq<char> {
        self.lang@
    }

    /// Replace the language code.
    pub fn lang(&mut self, value: &str) -> (r: VTextTokenizerParams)
        ensures
            final(self).spec_lang() == value@,
            r.spec_lang() == value@,
    {
        self.lang = value.to_owned();
        VTextTokenizerParams { lang: self.lang.clone() }
    }

    /// Build the tokenizer. A known language code is kept; every other
    /// code falls back to the language-independent rules, never an error.
    pub fn build(&mut self) -> (r: Result<VTextTokenizer, EstimatorErr>)
        ensures
            *final(self) == *old(self),
            r matches Ok(t) && t.lang@ == (if old(self).spec_lang() == "en"@ || old(
                self,
            ).spec_lang() == "fr"@ {
                old(self).spec_lang()
            } else {
                "any"@
            }),
    {
        if str_eq(&self.lang, "en") || str_eq(&self.lang, "fr") {
            Ok(VTextTokenizer { lang: self.lang.clone() })
        } else {
            Ok(VTextTokenizer { lang: "any".to_owned() })
        }
    }
}

impl Default for VTextTokenizerParams {
    /// The default language is English.
    fn default() -> (r: VTextTokenizerParams)
        ensures
            r.spec_lang() == "en"@,
    {
        VTextTokenizerParams { lang: "en".to_owned() }
    }
}

impl Default for VTextTokenizer {
    /// The default tokenizer uses the English rules.
    fn default() -> (r: VTextTokenizer)
        ensures
            r.lang@ == "en"@,
    {
        VTextTokenizer { lang: "en".to_owned() }
    }
}

/// Whether a token is the single-space separator.
fn is_space_tok(v: &Vec<char>) -> (r: bool)
    ensures
        r == is_space_seq(v@),
{
    v.len() == 1 && v[0] == ' '
}

/// Whether a token is a given single character.
fn is_single(v: &Vec<char>, c: char) -> (r: bool)
    ensures
        r == (v@ =~= seq![c]),
{
    if v.len() == 1 && v[0] == c {
        assert(v@ =~= seq![c]);
        true
    } else {
        assert(!(v@ =~= seq![c]));
        false
    }
}

impl VTextTokenizer {
    /// Tokenize a string. The result never holds a bare space token.
    pub fn tokenize_list(&self, text: &str) -> (r: Vec<String>)
        ensures
            forall|k: int| 0 <= k < r.deep_view().len() ==> !is_space_seq(r.deep_view()[k]),
    {
        let lang_en = str_eq(&self.lang, "en");
        let lang_fr = str_eq(&self.lang, "fr");
        let toks = split_word_bounds_vec(text);

        let mut res: Vec<Vec<char>> = Vec::new();
        // A run of one repeated ASCII punctuation character, still open.
        let mut punct_run: Vec<char> = Vec::new();
        let mut has_run: bool = false;
        let mut punct_last: char = 'X';

        let mut ti: usize = 0;
        while ti < toks.len()
            decreases toks@.len() - ti,
        {
            let tok = str_chars(&toks[ti]);
            ti += 1;

            if tok.len() == 1 && tok[0] != ' ' && char_is_ascii_punct(tok[0]) {
                // Punctuation: extend the current run, or flush it and
                // start a new one when the character changes.
                let ch = tok[0];
                if ch != punct_last {
                    if has_run {
                        res.push(punct_run);
                        punct_run = Vec::new();
                    }
                    has_run = true;
                    punct_run = Vec::new();
                }
                punct_run.push(ch);
                punct_last = ch;
                continue ;
            }
            if has_run {
                res.push(punct_run);
                punct_run = Vec::new();
                has_run = false;
                punct_last = 'X';
            }

            if lang_en {
                // Split English contractions at the apostrophe, keeping
                // the n of n't with the suffix.
                let apo = match find_char(&tok, '\'') {
                    Some(k) => Some(k),
                    None => find_char(&tok, '\u{2019}'),
                };
                if let Some(k) = apo {
                    let n = tok.len();
                    let nt = n >= 3 && tok[n - 3] == 'n' && (tok[n - 2] == '\'' || tok[n - 2]
                        == '\u{2019}') && tok[n - 1] == 't';
                    let split_at = if nt && k > 0 {
                        k - 1
                    } else {
                        k
                    };
                    res.push(subrange_chars(&tok, 0, split_at));
                    res.push(subrange_chars(&tok, split_at, tok.len()));
                    continue ;
                }
            } else if lang_fr {
                // Split French elision: a one-byte letter, an apostrophe,
                // and the rest.
                if tok.len() >= 2 && tok[1] == '\'' && tok[0] != '\'' && (tok[0] as u32) < 128 {
                    res.push(subrange_chars(&tok, 0, 2));
                    res.push(subrange_chars(&tok, 2, tok.len()));
                    continue ;
                }
            }
            res.push(tok);

            // Merge infix patterns such as porte-manteau, name@domain,
            // 1/2 or 8:30 back into one token.
            if res.len() >= 3 {
                let n = res.len();
                let sep_alnum = is_single(&res[n - 2], '-') || is_single(&res[n - 2], '@')
                    || is_single(&res[n - 2], '&');
                let sep_num = is_single(&res[n - 2], '/') || is_single(&res[n - 2], ':');
                if (sep_alnum || sep_num) && !is_space_tok(&res[n - 3]) && !is_space_tok(
                    &res[n - 1],
                ) && res[n - 3].len() > 0 && res[n - 1].len() > 0 {
                    let c_last = res[n - 3][res[n - 3].len() - 1];
                    let c_first = res[n - 3][0];
                    let f1 = sep_alnum && char_is_alphanumeric(c_last) && char_is_alphanumeric(
                        c_first,
                    );
                    let f2 = sep_num && char_is_numeric(c_last) && char_is_numeric(c_first);
                    if f1 || f2 {
                        let merged = concat_chars(
                            &concat_chars(&res[n - 3], &res[n - 2]),
                            &res[n - 1],
                        );
                        res.truncate(n - 3);
                        res.push(merged);
                    }
                }
            }
        }
        if has_run {
            res.push(punct_run);
        }

        // Drop the bare space separators.
        let mut out: Vec<String> = Vec::new();
        let mut i: usize = 0;
        while i < res.len()
            invariant
                i <= res@.len(),
                forall|k: int|
                    0 <= k < out.deep_view().len() ==> !is_space_seq(
                        #[trigger] out.deep_view()[k],
                    ),
            decreases res@.len() - i,
        {
            let ghost prev = out.deep_view();
            if !is_space_tok(&res[i]) {
                let s = chars_string(&res[i]);
                out.push(s);
                proof {
                    assert(out.deep_view() =~~= prev.push(res@[i as int]@));
                    assert(!is_space_seq(out.deep_view().last()));
                }
            }
            i += 1;
        }
        out
    }
}

impl Tokenizer for VTextTokenizer {
    fn tokenize(&self, text: &str) -> Vec<String> {
        self.tokenize_list(text)
    }
}

/// Character tokenizer: every window of `window_size` consecutive
/// characters, sliding one character at a time.
#[derive(Debug, Clone)]
pub struct CharacterTokenizer {
    pub window_size: usize,
}

impl CharacterTokenizer {
    /// Create a new instance.
    pub fn new(window_size: usize) -> (r: CharacterTokenizer)
        requires
            window_size >= 1,
        ensures
            r.window_size == window_size,
    {
        CharacterTokenizer { window_size }
    }

    /// Tokenize a string into its character windows. A non-empty text
    /// shorter than the window is one token; an empty text has none.
    pub fn tokenize_list(&self, text: &str) -> (r: Vec<String>)
        requires
            self.window_size >= 1,
        ensures
            text@.len() == 0 ==> r.deep_view() =~= Seq::<Seq<char>>::empty(),
            0 < text@.len() < self.window_size ==> r.deep_view() =~= seq![text@],
            text@.len() >= self.window_size ==> {
                &&& r.deep_view().len() == text@.len() - self.window_size + 1
                &&& forall|k: int|
                    0 <= k < r.deep_view().len() ==> #[trigger] r.deep_view()[k] == text@.subrange(
                        k,
                        k + self.window_size,
                    )
            },
    {
        let cs = str_chars(text);
        let w = self.window_size;
        let mut out: Vec<String> = Vec::new();
        if cs.len() == 0 {
            return out;
        }
        if cs.len() < w {
            let s = chars_string(&cs);
            out.push(s);
            assert(out.deep_view() =~~= seq![text@]);
            return out;
        }
        let mut k: usize = 0;
        while k <= cs.len() - w
            invariant
                self.window_size == w,
                1 <= w <= cs@.len(),
                cs@ == text@,
                k <= cs@.len() - w + 1,
                out.deep_view().len() == k,
                forall|q: int|
                    0 <= q < k ==> #[trigger] out.deep_view()[q] == text@.subrange(q, q + w),
            decreases cs@.len() - k,
        {
            let win = subrange_chars(&cs, k, k + w);
            let s = chars_string(&win);
            let ghost prev = out.deep_view();
            out.push(s);
            proof {
                assert(out.deep_view() =~~= prev.push(text@.subrange(k as int, k + w)));
            }
            k += 1;
        }
        out
    }
}

impl Tokenizer for CharacterTokenizer {
    fn tokenize(&self, text: &str) -> Vec<String> {
        if self.window_size == 0 {
            Vec::new()
        } else {
            self.tokenize_list(text)
        }
    }
}

/// Builder for the character tokenizer.
#[derive(Debug, Clone)]
pub struct CharacterTokenizerParams {
    window_size: usize,
}

impl CharacterTokenizerParams {
    /// The window the builder currently holds.
    pub closed spec fn spec_window_size(&self) -> usize {
        self.window_size
    }

    /// Replace the window size.
    pub fn window_size(&mut self, value: usize) -> (r: CharacterTokenizerParams)
        ensures
            final(self).spec_window_size() == value,
            r.spec_window_size() == value,
    {
        self.window_size = value;
        CharacterTokenizerParams { window_size: value }
    }

    /// Build the tokenizer. Fails exactly when the window is zero.
    pub fn build(&mut self) -> (r: Result<CharacterTokenizer, EstimatorErr>)
        ensures
            *final(self) == *old(self),
            r is Ok <==> old(self).spec_window_size() >= 1,
            r matches Ok(t) ==> t.window_size == old(self).spec_window_size(),
    {
        if self.window_size >= 1 {
            Ok(CharacterTokenizer { window_size: self.window_size })
        } else {
            Err(EstimatorErr::InvalidParams("`window_size` must be at least 1".to_owned()))
        }
    }
}

impl Default for CharacterTokenizerParams {
    /// The default window is four characters.
    fn default() -> (r: CharacterTokenizerParams)
        ensures
            r.spec_window_size() == 4,
    {
        CharacterTokenizerParams { window_size: 4 }
    }
}

impl Default for CharacterTokenizer {
    /// The default window is four characters.
    fn default() -> (r: CharacterTokenizer)
        ensures
            r.window_size == 4,
    {
        CharacterTokenizer { window_size: 4 }
    }
}

/// Whether `c` is an ASCII digit.
fn is_digit(c: char) -> (r: bool)
    ensures
        r == (48 <= (c as u32) && (c as u32) <= 57),
{
    let u = c as u32;
    48 <= u && u <= 57
}

/// Whether `c` closes a quotation or bracket and may trail a final
/// period.
fn is_closer(c: char) -> bool {
    c == ']' || c == ')' || c == '}' || c == '>' || c == '"' || c == '\'' || c == '\u{00bb}'
        || c == '\u{201d}' || c == '\u{2019}'
}

/// Split a character stream at whitespace runs into non-empty tokens.
fn split_whitespace_chars(cs: &Vec<char>) -> (r: Vec<Vec<char>>)
    ensures
        forall|k: int| 0 <= k < r.deep_view().len() ==> (#[trigger] r.deep_view()[k]).len() > 0,
{
    let mut out: Vec<Vec<char>> = Vec::new();
    let mut cur: Vec<char> = Vec::new();
    let mut i: usize = 0;
    while i < cs.len()
        invariant
            i <= cs@.len(),
            forall|k: int|
                0 <= k < out.deep_view().len() ==> (#[trigger] out.deep_view()[k]).len() > 0,
        decreases cs@.len() - i,
    {
        let c = cs[i];
        if char_is_whitespace(c) || c == ' ' {
            if cur.len() > 0 {
                let ghost prev = out.deep_view();
                out.push(cur);
                cur = Vec::new();
                proof {
                    assert(out.deep_view() =~~= prev.push(out.deep_view().last()));
                }
            }
        } else {
            cur.push(c);
        }
        i += 1;
    }
    if cur.len() > 0 {
        let ghost prev = out.deep_view();
        out.push(cur);
        proof {
            assert(out.deep_view() =~~= prev.push(out.deep_view().last()));
        }
    }
    out
}

/// Whether `tok` equals `word` up to ASCII case.
fn tok_eq_ignore_ascii_case(tok: &Vec<char>, word: &Vec<char>) -> bool {
    if tok.len() != word.len() {
        return false;
    }
    let mut i: usize = 0;
    let mut same = true;
    while i < tok.len()
        invariant
            i <= tok@.len(),
            tok@.len() == word@.len(),
        decreases tok@.len() - i,
    {
        let a = tok[i] as u32;
        let b = word[i] as u32;
        let af = if 65 <= a && a <= 90 {
            a + 32
        } else {
            a
        };
        let bf = if 65 <= b && b <= 90 {
            b + 32
        } else {
            b
        };
        if af != bf {
            same = false;
        }
        i += 1;
    }
    same
}

/// Append a token known to be non-empty, keeping every stored token
/// non-empty.
fn push_nonempty(out: &mut Vec<String>, s: String)
    requires
        s@.len() > 0,
        forall|k: int|
            0 <= k < old(out).deep_view().len() ==> (#[trigger] old(out).deep_view()[k]).len()
                > 0,
    ensures
        forall|k: int|
            0 <= k < final(out).deep_view().len()
                ==> (#[trigger] final(out).deep_view()[k]).len() > 0,
{
    let ghost before = out.deep_view();
    let ghost sv = s@;
    out.push(s);
    proof {
        assert(out.deep_view() =~~= before.push(sv));
        assert forall|k: int| 0 <= k < out.deep_view().len() implies (
        #[trigger] out.deep_view()[k]).len() > 0 by {
            if k < before.len() {
                assert(out.deep_view()[k] == before[k]);
            } else {
                assert(out.deep_view()[k] == sv);
            }
        }
    }
}

/// A treebank-style word tokenizer in the manner of the Penn Treebank
/// conventions: punctuation splits off words, a sentence-final period
/// becomes its own token, ASCII double quotes become `` `` `` and `''`,
/// clitics such as `n't` and `'s` split from their hosts, and a few
/// fused words such as `cannot` come apart.
#[derive(Debug, Clone)]
pub struct NTLKWordTokenizer {}

impl Default for NTLKWordTokenizer {
    /// Create a new instance.
    fn default() -> (r: NTLKWordTokenizer) {
        NTLKWordTokenizer {  }
    }
}

impl NTLKWordTokenizer {
    /// Tokenize a string. Every returned token is non-empty.
    pub fn tokenize_list(&self, text: &str) -> (r: Vec<String>)
        ensures
            forall|k: int|
                0 <= k < r.deep_view().len() ==> (#[trigger] r.deep_view()[k]).len() > 0,
    {
        let cs = str_chars(text);
        let n = cs.len();

        // The sentence-final period: walk back over whitespace and
        // closing quotes or brackets; the period there splits off unless
        // it follows another period.
        let mut final_dot: usize = n;
        let mut j: usize = n;
        let mut scanning = true;
        while scanning && j > 0
            invariant
                j <= cs@.len(),
                final_dot <= cs@.len(),
            decreases (if scanning { 1int } else { 0int }) + j,
        {
            let c = cs[j - 1];
            if char_is_whitespace(c) || c == ' ' || is_closer(c) {
                j -= 1;
            } else {
                if c == '.' && (j < 2 || cs[j - 2] != '.') {
                    final_dot = j - 1;
                }
                scanning = false;
            }
        }

        // Space out the punctuation.
        let mut spaced: Vec<char> = Vec::new();
        let mut i: usize = 0;
        while i < n
            invariant
                i <= cs@.len(),
                n == cs@.len(),
                final_dot <= cs@.len(),
            decreases cs@.len() - i,
        {
            let c = cs[i];
            if c == '"' {
                // An opening quote at the start or after a space or an
                // opening bracket becomes a double backtick, any other
                // one a double apostrophe.
                let opening = i == 0 || {
                    let p = cs[i - 1];
                    char_is_whitespace(p) || p == ' ' || p == '(' || p == '[' || p == '{' || p
                        == '<'
                };
                spaced.push(' ');
                if opening {
                    spaced.push('`');
                    spaced.push('`');
                } else {
                    spaced.push('\'');
                    spaced.push('\'');
                }
                spaced.push(' ');
            } else if c == '\u{00ab}' || c == '\u{201c}' || c == '\u{2018}' || c == '\u{201e}'
                || c == '`' || c == '\u{00bb}' || c == '\u{201d}' || c == ';' || c == '@' || c
                == '#' || c == '$' || c == '%' || c == '&' || c == '?' || c == '!' || c == '('
                || c == ')' || c == '[' || c == ']' || c == '{' || c == '}' || c == '<' || c
                == '>' {
                spaced.push(' ');
                spaced.push(c);
                spaced.push(' ');
            } else if c == ':' || c == ',' {
                // Keep a colon or comma between digits, as in 3:00 or
                // 50,000; split it off otherwise.
                let keep = i + 1 < n && is_digit(cs[i + 1]);
                if keep {
                    spaced.push(c);
                } else {
                    spaced.push(' ');
                    spaced.push(c);
                    spaced.push(' ');
                }
            } else if c == '.' {
                if i == final_dot {
                    spaced.push(' ');
                    spaced.push('.');
                    spaced.push(' ');
                } else if (i + 1 < n && cs[i + 1] == '.') || (i > 0 && cs[i - 1] == '.') {
                    // an ellipsis run splits off as one token
                    if i == 0 || cs[i - 1] != '.' {
                        spaced.push(' ');
                    }
                    spaced.push('.');
                    if i + 1 >= n || cs[i + 1] != '.' {
                        spaced.push(' ');
                    }
                } else {
                    spaced.push('.');
                }
            } else {
                spaced.push(c);
            }
            i += 1;
        }

        let raw = split_whitespace_chars(&spaced);

        // Split clitics and fused words token by token.
        let mut out: Vec<String> = Vec::new();
        let mut t: usize = 0;
        while t < raw.len()
            invariant
                t <= raw@.len(),
                forall|k: int|
                    0 <= k < raw.deep_view().len() ==> (#[trigger] raw.deep_view()[k]).len() > 0,
                forall|k: int|
                    0 <= k < out.deep_view().len() ==> (#[trigger] out.deep_view()[k]).len()
                        > 0,
            decreases raw@.len() - t,
    {
            assert(raw@[t as int]@ =~= raw.deep_view()[t as int]);
            let tok = &raw[t];
            let m = tok.len();
            assert(m > 0);
            let fused = m >= 4 && (tok_eq_ignore_ascii_case(tok, &str_chars("cannot"))
                || tok_eq_ignore_ascii_case(tok, &str_chars("gimme"))
                || tok_eq_ignore_ascii_case(tok, &str_chars("gonna"))
                || tok_eq_ignore_ascii_case(tok, &str_chars("gotta"))
                || tok_eq_ignore_ascii_case(tok, &str_chars("lemme"))
                || tok_eq_ignore_ascii_case(tok, &str_chars("wanna")));
            let nt = m > 3 && (tok[m - 3] == 'n' || tok[m - 3] == 'N') && tok[m - 2] == '\''
                && (tok[m - 1] == 't' || tok[m - 1] == 'T');
            let two = m > 2 && tok[m - 2] == '\'' && (tok[m - 1] == 's' || tok[m - 1] == 'S'
                || tok[m - 1] == 'm' || tok[m - 1] == 'M' || tok[m - 1] == 'd' || tok[m - 1]
                == 'D') && tok[m - 3] != '\'';
            let three = m > 3 && tok[m - 3] == '\'' && ((tok[m - 2] == 'l' && tok[m - 1] == 'l')
                || (tok[m - 2] == 'L' && tok[m - 1] == 'L') || (tok[m - 2] == 'r' && tok[m - 1]
                == 'e') || (tok[m - 2] == 'R' && tok[m - 1] == 'E') || (tok[m - 2] == 'v'
                && tok[m - 1] == 'e') || (tok[m - 2] == 'V' && tok[m - 1] == 'E')) && tok[m
                - 4] != '\'';
            if fused {
                push_nonempty(&mut out, chars_string(&subrange_chars(tok, 0, 3)));
                push_nonempty(&mut out, chars_string(&subrange_chars(tok, 3, m)));
            } else if nt {
                push_nonempty(&mut out, chars_string(&subrange_chars(tok, 0, m - 3)));
                push_nonempty(&mut out, chars_string(&subrange_chars(tok, m - 3, m)));
            } else if two {
                push_nonempty(&mut out, chars_string(&subrange_chars(tok, 0, m - 2)));
                push_nonempty(&mut out, chars_string(&subrange_chars(tok, m - 2, m)));
            } else if three {
                push_nonempty(&mut out, chars_string(&subrange_chars(tok, 0, m - 3)));
                push_nonempty(&mut out, chars_string(&subrange_chars(tok, m - 3, m)));
            } else {
                push_nonempty(&mut out, chars_string(tok));
            }
            t += 1;
        }
        out
    }
}

impl Tokenizer for NTLKWordTokenizer {
    fn tokenize(&self, text: &str) -> Vec<String> {
        self.tokenize_list(text)
    }
}

} // verus!
