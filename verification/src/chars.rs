//! Character-level helpers shared by the tokenizers and vectorizers.
//!
//! All of the crate's text processing works over `Vec<char>` so that the
//! logic can be specified over `Seq<char>`. The conversions between `&str`
//! and `Vec<char>` stand here, together with the lexicographic order used
//! by the vocabulary and the ASCII lowercasing applied to documents.

use vstd::prelude::*;

verus! {

/// Relies on `str::chars`: yields the characters of the string, in order.
#[verifier::external_body]
pub(crate) fn str_chars(s: &str) -> (r: Vec<char>)
    ensures
        r@ == s@,
{
    s.chars().collect()
}

/// Relies on `String`'s `FromIterator<char>`: the collected string holds
/// exactly the given characters, in order.
#[verifier::external_body]
pub(crate) fn chars_string(v: &Vec<char>) -> (r: String)
    ensures
        r@ == v@,
{
    v.iter().collect()
}

/// Whether two character vectors hold the same characters.
pub(crate) fn chars_eq(a: &Vec<char>, b: &Vec<char>) -> (r: bool)
    ensures
        r == (a@ == b@),
{
    if a.len() != b.len() {
        assert(a@ != b@);
        return false;
    }
    let mut i: usize = 0;
    while i < a.len()
        invariant
            i <= a.len(),
            a@.len() == b@.len(),
            forall|j: int| 0 <= j < i ==> a@[j] == b@[j],
        decreases a.len() - i,
    {
        if a[i] != b[i] {
            return false;
        }
        i += 1;
    }
    assert(a@ =~= b@);
    true
}

/// Strict lexicographic order on character sequences, by Unicode scalar
/// value. This is the order `str`'s own `Ord` uses, since UTF-8 byte order
/// agrees with scalar order.
pub open spec fn lex_lt(a: Seq<char>, b: Seq<char>) -> bool
    decreases a.len(),
{
    if b.len() == 0 {
        false
    } else if a.len() == 0 {
        true
    } else if a[0] != b[0] {
        (a[0] as u32) < (b[0] as u32)
    } else {
        lex_lt(a.drop_first(), b.drop_first())
    }
}

/// The lexicographic order is total: of two distinct sequences one is
/// strictly below the other, and never both.
pub proof fn lemma_lex_lt_total(a: Seq<char>, b: Seq<char>)
    ensures
        a == b || lex_lt(a, b) || lex_lt(b, a),
        !(lex_lt(a, b) && lex_lt(b, a)),
    decreases a.len(),
{
    if b.len() == 0 || a.len() == 0 {
        if a.len() == 0 && b.len() == 0 {
            assert(a =~= b);
        }
    } else if a[0] != b[0] {
        assert((a[0] as u32) != (b[0] as u32)) by {
            vstd::utf8::char_u32_cast(a[0], a[0] as u32);
            vstd::utf8::char_u32_cast(b[0], b[0] as u32);
        }
    } else {
        lemma_lex_lt_total(a.drop_first(), b.drop_first());
        if a.drop_first() == b.drop_first() {
            assert(a =~= b) by {
                assert(a == seq![a[0]] + a.drop_first());
                assert(b == seq![b[0]] + b.drop_first());
            }
        }
    }
}

/// The lexicographic order is transitive.
pub proof fn lemma_lex_lt_trans(a: Seq<char>, b: Seq<char>, c: Seq<char>)
    requires
        lex_lt(a, b),
        lex_lt(b, c),
    ensures
        lex_lt(a, c),
    decreases a.len(),
{
    if a.len() == 0 {
    } else {
        if a[0] == b[0] && b[0] == c[0] {
            lemma_lex_lt_trans(a.drop_first(), b.drop_first(), c.drop_first());
        }
    }
}

/// Whether `a` comes strictly before `b` in lexicographic order.
pub(crate) fn lex_lt_chars(a: &Vec<char>, b: &Vec<char>) -> (r: bool)
    ensures
        r == lex_lt(a@, b@),
{
    let n = if a.len() < b.len() {
        a.len()
    } else {
        b.len()
    };
    let mut i: usize = 0;
    assert(a@.skip(0) =~= a@);
    assert(b@.skip(0) =~= b@);
    while i < n
        invariant
            i <= n,
            n == if a@.len() < b@.len() {
                a@.len()
            } else {
                b@.len()
            },
            forall|j: int| 0 <= j < i ==> a@[j] == b@[j],
            lex_lt(a@, b@) == lex_lt(a@.skip(i as int), b@.skip(i as int)),
        decreases n - i,
    {
        let ca = a[i];
        let cb = b[i];
        assert(a@.skip(i as int)[0] == a@[i as int]);
        assert(b@.skip(i as int)[0] == b@[i as int]);
        if ca != cb {
            assert(lex_lt(a@.skip(i as int), b@.skip(i as int)) == ((ca as u32) < (cb as u32)));
            return (ca as u32) < (cb as u32);
        }
        assert(a@.skip(i as int).drop_first() =~= a@.skip(i + 1));
        assert(b@.skip(i as int).drop_first() =~= b@.skip(i + 1));
        i += 1;
    }
    if a.len() < b.len() {
        assert(a@.skip(i as int).len() == 0);
        assert(b@.skip(i as int).len() > 0);
        true
    } else {
        assert(b@.skip(i as int).len() == 0);
        false
    }
}

/// The ASCII lowercase mapping on a single character: the letters `A` to
/// `Z` move down to `a` to `z`; every other character stays.
pub open spec fn ascii_lower_char(c: char) -> char {
    if 65 <= (c as u32) && (c as u32) <= 90 {
        (((c as u32) + 32) as char)
    } else {
        c
    }
}

/// Relies on `char::from_u32`: yields the character with the given scalar
/// value.
#[verifier::external_body]
fn char_from_u32(u: u32) -> (r: char)
    requires
        u < 0xD800 || (0xE000 <= u && u <= 0x10FFFF),
    ensures
        r == (u as char),
{
    char::from_u32(u).unwrap()
}

/// Map every ASCII uppercase letter of `v` to its lowercase form, leaving
/// all other characters unchanged.
pub fn to_ascii_lowercase(v: &Vec<char>) -> (r: Vec<char>)
    ensures
        r@ == v@.map_values(|c: char| ascii_lower_char(c)),
{
    let mut out: Vec<char> = Vec::new();
    let mut i: usize = 0;
    while i < v.len()
        invariant
            i <= v.len(),
            out@ =~= v@.take(i as int).map_values(|c: char| ascii_lower_char(c)),
        decreases v.len() - i,
    {
        let c = v[i];
        let u = c as u32;
        if 65 <= u && u <= 90 {
            out.push(char_from_u32(u + 32));
        } else {
            out.push(c);
        }
        assert(v@.take(i + 1).map_values(|c: char| ascii_lower_char(c)) =~= v@.take(
            i as int,
        ).map_values(|c: char| ascii_lower_char(c)).push(ascii_lower_char(v@[i as int])));
        i += 1;
    }
    assert(v@.take(v@.len() as int) =~= v@);
    out
}

/// The ASCII punctuation characters, as `char::is_ascii_punctuation`
/// defines them: `!` to `/`, `:` to `@`, `[` to `` ` ``, and `{` to `~`.
pub open spec fn is_ascii_punct_char(c: char) -> bool {
    (33 <= (c as u32) && (c as u32) <= 47) || (58 <= (c as u32) && (c as u32) <= 64) || (91 <= (
    c as u32) && (c as u32) <= 96) || (123 <= (c as u32) && (c as u32) <= 126)
}

/// Whether `c` is an ASCII punctuation character.
pub(crate) fn char_is_ascii_punct(c: char) -> (r: bool)
    ensures
        r == is_ascii_punct_char(c),
{
    let u = c as u32;
    (33 <= u && u <= 47) || (58 <= u && u <= 64) || (91 <= u && u <= 96) || (123 <= u && u <= 126)
}

/// Whether `char::is_alphanumeric` holds of a character: a fixed Unicode
/// property of the character alone.
pub uninterp spec fn is_alnum_char(c: char) -> bool;

/// Relies on `char::is_alphanumeric`: a pure classification of the
/// character.
#[verifier::external_body]
pub(crate) fn char_is_alphanumeric(c: char) -> (r: bool)
    ensures
        r == is_alnum_char(c),
{
    c.is_alphanumeric()
}

/// Whether `char::is_numeric` holds of a character: a fixed Unicode
/// property of the character alone.
pub uninterp spec fn is_numeric_char(c: char) -> bool;

/// Relies on `char::is_numeric`: a pure classification of the character.
#[verifier::external_body]
pub(crate) fn char_is_numeric(c: char) -> (r: bool)
    ensures
        r == is_numeric_char(c),
{
    c.is_numeric()
}

/// Whether `char::is_whitespace` holds of a character: a fixed Unicode
/// property of the character alone. A space is whitespace.
pub uninterp spec fn is_whitespace_char(c: char) -> bool;

/// Relies on `char::is_whitespace`: a pure classification of the
/// character; the documentation lists the space among the whitespace.
#[verifier::external_body]
pub(crate) fn char_is_whitespace(c: char) -> (r: bool)
    ensures
        r == is_whitespace_char(c),
        c == ' ' ==> r,
{
    c.is_whitespace()
}

/// Relies on `str`'s `PartialEq`: two string slices are equal exactly
/// when their characters are.
#[verifier::external_body]
pub(crate) fn str_eq(a: &str, b: &str) -> (r: bool)
    ensures
        r == (a@ == b@),
{
    a == b
}

/// A one-character sequence holding a single space.
pub open spec fn is_space_seq(s: Seq<char>) -> bool {
    s.len() == 1 && s[0] == ' '
}

/// The first position of `c` in `v`, if any.
pub(crate) fn find_char(v: &Vec<char>, c: char) -> (r: Option<usize>)
    ensures
        match r {
            Some(k) => k < v@.len() && v@[k as int] == c && forall|j: int| 0 <= j < k ==> v@[j] != c,
            None => forall|j: int| 0 <= j < v@.len() ==> v@[j] != c,
        },
{
    let mut i: usize = 0;
    while i < v.len()
        invariant
            i <= v@.len(),
            forall|j: int| 0 <= j < i ==> v@[j] != c,
        decreases v@.len() - i,
    {
        if v[i] == c {
            return Some(i);
        }
        i += 1;
    }
    None
}

/// The characters of `v` from `from` (inclusive) to `to` (exclusive).
pub(crate) fn subrange_chars(v: &Vec<char>, from: usize, to: usize) -> (r: Vec<char>)
    requires
        from <= to <= v@.len(),
    ensures
        r@ == v@.subrange(from as int, to as int),
{
    let mut out: Vec<char> = Vec::new();
    let mut i: usize = from;
    while i < to
        invariant
            from <= i <= to <= v@.len(),
            out@ =~= v@.subrange(from as int, i as int),
        decreases to - i,
    {
        out.push(v[i]);
        assert(out@ =~= v@.subrange(from as int, i + 1));
        i += 1;
    }
    out
}

/// `a` followed by `b`.
pub(crate) fn concat_chars(a: &Vec<char>, b: &Vec<char>) -> (r: Vec<char>)
    ensures
        r@ == a@ + b@,
{
    let mut out = clone_chars_vec(a);
    let mut i: usize = 0;
    while i < b.len()
        invariant
            i <= b@.len(),
            out@ =~= a@ + b@.take(i as int),
        decreases b@.len() - i,
    {
        out.push(b[i]);
        assert(out@ =~= a@ + b@.take(i + 1));
        i += 1;
    }
    assert(b@.take(b@.len() as int) =~= b@);
    assert(out@ =~= a@ + b@);
    out
}

/// A fresh copy of a character vector.
pub(crate) fn clone_chars_vec(v: &Vec<char>) -> (r: Vec<char>)
    ensures
        r@ == v@,
{
    let mut out: Vec<char> = Vec::new();
    let mut i: usize = 0;
    while i < v.len()
        invariant
            i <= v@.len(),
            out@ =~= v@.take(i as int),
        decreases v@.len() - i,
    {
        out.push(v[i]);
        assert(out@ =~= v@.take(i + 1));
        i += 1;
    }
    assert(v@.take(v@.len() as int) =~= v@);
    out
}

} // verus!
