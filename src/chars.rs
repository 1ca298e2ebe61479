use vstd::prelude::*;

verus! {

/// Whether a character above U+007F has Unicode's Alphabetic property.
pub uninterp spec fn wide_alphabetic(c: char) -> bool;

/// Unicode's White_Space property, which holds of these characters alone.
pub open spec fn is_space(c: char) -> bool {
    c == ' ' || ('\t' <= c && c <= '\r') || c == '\u{85}' || c == '\u{a0}' || c == '\u{1680}'
        || ('\u{2000}' <= c && c <= '\u{200a}') || c == '\u{2028}' || c == '\u{2029}' || c
        == '\u{202f}' || c == '\u{205f}' || c == '\u{3000}'
}

/// Unicode's Alphabetic property: on ASCII, the Latin letters; among the
/// rest, the micro sign is one.
pub open spec fn is_letter(c: char) -> bool {
    ('a' <= c && c <= 'z') || ('A' <= c && c <= 'Z') || c == '\u{b5}' || ('\x7f' < c
        && wide_alphabetic(c))
}

pub open spec fn is_digit(c: char) -> bool {
    '0' <= c && c <= '9'
}

/// Whether `c` is whitespace, as `char::is_whitespace` decides it.
pub fn char_is_whitespace(c: char) -> (r: bool)
    ensures
        r == is_space(c),
{
    c == ' ' || ('\t' <= c && c <= '\r') || c == '\u{85}' || c == '\u{a0}' || c == '\u{1680}'
        || ('\u{2000}' <= c && c <= '\u{200a}') || c == '\u{2028}' || c == '\u{2029}' || c
        == '\u{202f}' || c == '\u{205f}' || c == '\u{3000}'
}

/// Relies on `char::is_alphabetic`, which tests Unicode's Alphabetic property;
/// among ASCII characters that property holds of the Latin letters alone, and
/// the micro sign U+00B5, a lowercase letter, has it.
#[verifier::external_body]
pub fn char_is_alphabetic(c: char) -> (r: bool)
    ensures
        r == (('a' <= c && c <= 'z') || ('A' <= c && c <= 'Z') || c == '\u{b5}' || ('\x7f' < c
            && wide_alphabetic(c))),
{
    c.is_alphabetic()
}

pub fn char_is_digit(c: char) -> (r: bool)
    ensures
        r == is_digit(c),
{
    '0' <= c && c <= '9'
}

/// Relies on `String`'s `FromIterator<char>`: the characters, in order.
#[verifier::external_body]
pub fn text_of(chars: &[char]) -> (r: String)
    ensures
        r@ == chars@,
{
    chars.iter().collect()
}

/// The characters of `s` with every whitespace character removed.
pub open spec fn strip_spaces(s: Seq<char>) -> Seq<char> {
    s.filter(|c: char| !is_space(c))
}

pub proof fn lemma_strip_push(s: Seq<char>, c: char)
    ensures
        strip_spaces(s.push(c)) == if is_space(c) {
            strip_spaces(s)
        } else {
            strip_spaces(s).push(c)
        },
{
    reveal(Seq::filter);
    assert(s.push(c).drop_last() =~= s);
}

pub proof fn lemma_strip_concat(a: Seq<char>, b: Seq<char>)
    ensures
        strip_spaces(a + b) == strip_spaces(a) + strip_spaces(b),
    decreases b.len(),
{
    if b.len() == 0 {
        assert(a + b =~= a);
        assert(strip_spaces(a) + strip_spaces(b) =~= strip_spaces(a)) by {
            reveal(Seq::filter);
        }
    } else {
        let c = b.last();
        let b0 = b.drop_last();
        lemma_strip_concat(a, b0);
        assert(a + b =~= (a + b0).push(c));
        assert(b =~= b0.push(c));
        lemma_strip_push(a + b0, c);
        lemma_strip_push(b0, c);
        if !is_space(c) {
            assert(strip_spaces(a) + strip_spaces(b0).push(c) =~= (strip_spaces(a) + strip_spaces(
                b0,
            )).push(c));
        }
    }
}

/// The characters of `s`, one by one.
pub fn chars_of(s: &str) -> (r: Vec<char>)
    ensures
        r@ == s@,
{
    broadcast use vstd::string::group_string_axioms;

    let mut out: Vec<char> = Vec::new();
    for c in it: s.chars()
        invariant
            it.seq() == s@,
            out@ == s@.take(it.index() as int),
    {
        assert(s@.take(it.index() + 1) == s@.take(it.index() as int).push(c));
        out.push(c);
    }
    assert(s@.take(s@.len() as int) == s@);
    out
}

/// The characters of `s` that are not whitespace.
pub fn strip_whitespace(s: &[char]) -> (r: Vec<char>)
    ensures
        r@ == strip_spaces(s@),
{
    let mut out: Vec<char> = Vec::new();
    let mut i: usize = 0;
    while i < s.len()
        invariant
            i <= s.len(),
            out@ == strip_spaces(s@.take(i as int)),
        decreases s.len() - i,
    {
        let c = s[i];
        proof {
            assert(s@.take(i + 1) == s@.take(i as int).push(c));
            lemma_strip_push(s@.take(i as int), c);
        }
        if !char_is_whitespace(c) {
            out.push(c);
        }
        i = i + 1;
    }
    assert(s@.take(s@.len() as int) == s@);
    out
}

/// Whether two texts hold the same characters.
pub fn same_text(a: &str, b: &str) -> (r: bool)
    ensures
        r == (a@ == b@),
{
    let x = chars_of(a);
    let y = chars_of(b);
    if x.len() != y.len() {
        return false;
    }
    let mut i: usize = 0;
    while i < x.len()
        invariant
            x@ == a@,
            y@ == b@,
            x.len() == y.len(),
            i <= x.len(),
            forall|j: int| 0 <= j < i ==> x@[j] == y@[j],
        decreases x.len() - i,
    {
        if x[i] != y[i] {
            return false;
        }
        i = i + 1;
    }
    assert(x@ =~= y@);
    true
}

/// Splits `ts` where the characters that satisfy `predicate` stop: the first
/// part is the longest prefix of them, the second part the rest.
pub fn partition_predicate<'a, P: Fn(char) -> bool>(ts: &'a str, predicate: P) -> (r: (
    &'a str,
    &'a str,
))
    requires
        forall|c: char| predicate.requires((c,)),
    ensures
        r.0@ + r.1@ == ts@,
        forall|i: int| 0 <= i < r.0@.len() ==> predicate.ensures((#[trigger] ts@[i],), true),
        r.1@.len() > 0 ==> predicate.ensures((r.1@[0],), false),
{
    broadcast use vstd::string::group_string_axioms;

    let n = ts.unicode_len();
    let mut p: usize = 0;
    let mut stopped = false;
    for c in it: ts.chars()
        invariant
            it.seq() == ts@,
            n == ts@.len(),
            p <= it.index() <= n,
            !stopped ==> p == it.index(),
            stopped ==> p < n && predicate.ensures((ts@[p as int],), false),
            forall|i: int| 0 <= i < p ==> predicate.ensures((#[trigger] ts@[i],), true),
            forall|c: char| predicate.requires((c,)),
    {
        if !stopped {
            if predicate(c) {
                p = p + 1;
            } else {
                stopped = true;
            }
        }
    }
    let head = ts.substring_char(0, p);
    let tail = ts.substring_char(p, n);
    assert(head@ + tail@ =~= ts@);
    (head, tail)
}

} // verus!
