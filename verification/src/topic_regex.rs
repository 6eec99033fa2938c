//! The regular expressions that topic patterns are checked and scanned with, and the calls
//! into the `regex` crate that run them.

use regex::Regex;
use vstd::prelude::*;

use crate::text::{byte_len_upto, char_index_of};
use crate::topic_grammar::{
    are_token_spans, has_char, has_empty_level, has_invalid_topic_char, lemma_token_span_bounds, search_from,
    token_spans,
};

verus! {

/// Matches an empty level at the start, in the middle, or at the end of a pattern.
pub const EMPTY_LEVEL_REGEX: &'static str = r"((^\s*/)|(/\s*/)|(/\s*$))";

/// Matches one token of a pattern, such as `{bar}` in `foo/{bar}`.
pub const TOKEN_REGEX: &'static str = r"(\{[^}]+\})";

/// Matches one character that a topic level must not hold.
pub const INVALID_CHAR_REGEX: &'static str = r"([^\x21-\x7E]|[+#{}])";

/// Calls `regex::Regex::new` on `src` and then `Regex::is_match` on `haystack`.
///
/// Claimed, by the regex syntax that the `regex` crate documents (`\s` is `\p{White_Space}`,
/// `^` and `$` anchor at the text's ends, a negated class matches any other character):
/// the empty-level expression matches exactly when `has_empty_level` holds, and the
/// invalid-character expression exactly when `has_invalid_topic_char` holds. Both sources
/// compile, so the call does not fail.
#[verifier::external_body]
pub(crate) fn regex_is_match(src: &str, haystack: &str) -> (r: bool)
    requires
        src@ == EMPTY_LEVEL_REGEX@ || src@ == INVALID_CHAR_REGEX@,
    ensures
        src@ == EMPTY_LEVEL_REGEX@ ==> r == has_empty_level(haystack@),
        src@ == INVALID_CHAR_REGEX@ ==> r == has_invalid_topic_char(haystack@),
{
    Regex::new(src).unwrap().is_match(haystack)
}

/// The UTF-8 byte positions of the character spans `cs` of `s`.
pub open spec fn are_byte_positions(s: Seq<char>, cs: Seq<(usize, usize)>, bs: Seq<(usize, usize)>) -> bool {
    &&& bs.len() == cs.len()
    &&& forall|k: int|
        0 <= k < cs.len() ==> (#[trigger] bs[k]).0 == byte_len_upto(s, cs[k].0 as int) && bs[k].1 == byte_len_upto(
            s,
            cs[k].1 as int,
        )
}

/// `bs` are the UTF-8 byte positions of the token spans of `s`.
pub open spec fn are_token_byte_spans(s: Seq<char>, bs: Seq<(usize, usize)>) -> bool {
    exists|cs: Seq<(usize, usize)>| are_token_spans(s, cs) && are_byte_positions(s, cs, bs)
}

/// Calls `regex::Regex::new` on `src` and then `Regex::find_iter` on `haystack`, giving the
/// `[start, end)` byte positions of each match.
///
/// Claimed, by the crate's documentation of `find_iter` (successive non-overlapping
/// leftmost-first matches, at byte offsets of the haystack) and by the syntax of the token
/// expression: the positions are those of character spans that `are_token_spans` describes.
/// The source compiles, so the call does not fail.
#[verifier::external_body]
fn regex_find_byte_spans(src: &str, haystack: &str) -> (spans: Vec<(usize, usize)>)
    requires
        src@ == TOKEN_REGEX@,
    ensures
        are_token_byte_spans(haystack@, spans@),
{
    Regex::new(src).unwrap().find_iter(haystack).map(|m| (m.start(), m.end())).collect()
}

/// The token spans of `haystack`, as character positions.
pub(crate) fn find_token_spans(src: &str, haystack: &str) -> (spans: Vec<(usize, usize)>)
    requires
        src@ == TOKEN_REGEX@,
    ensures
        are_token_spans(haystack@, spans@),
{
    let bytes = regex_find_byte_spans(src, haystack);
    let ghost cs = choose|cs: Seq<(usize, usize)>|
        are_token_spans(haystack@, cs) && are_byte_positions(haystack@, cs, bytes@);
    let mut spans: Vec<(usize, usize)> = Vec::new();
    let mut k: usize = 0;
    while k < bytes.len()
        invariant
            are_token_spans(haystack@, cs),
            are_byte_positions(haystack@, cs, bytes@),
            k <= bytes@.len(),
            spans@ == cs.take(k as int),
        decreases bytes@.len() - k,
    {
        proof {
            lemma_token_span_bounds(haystack@, cs, k as int);
        }
        let (a, b) = bytes[k];
        let i = char_index_of(haystack, a, Ghost(cs[k as int].0 as int));
        let j = char_index_of(haystack, b, Ghost(cs[k as int].1 as int));
        spans.push((i, j));
        proof {
            assert(spans@ =~= cs.take(k + 1));
        }
        k = k + 1;
    }
    proof {
        assert(cs.take(cs.len() as int) =~= cs);
    }
    spans
}

/// `s` with each span in `spans` from index `k` on replaced by `rep`.
pub open spec fn replace_spans(s: Seq<char>, spans: Seq<(usize, usize)>, k: int, rep: Seq<char>) -> Seq<char>
    decreases spans.len() - k,
{
    if k >= spans.len() || k < 0 {
        s.subrange(search_from(spans, k), s.len() as int)
    } else {
        s.subrange(search_from(spans, k), spans[k].0 as int) + rep + replace_spans(s, spans, k + 1, rep)
    }
}

/// `s` with every token replaced by `rep`.
pub open spec fn replace_tokens(s: Seq<char>, rep: Seq<char>) -> Seq<char> {
    replace_spans(s, token_spans(s), 0, rep)
}

/// Calls `regex::Regex::new` on `src` and then `Regex::replace_all` on `haystack` with the
/// text `rep`.
///
/// Claimed, by the crate's documentation of `replace_all` (every non-overlapping match is
/// replaced, and a replacement text without `$` is used as it is): the result is
/// `haystack` with each of its token spans (`token_spans`, the spans that `find_iter`
/// yields) replaced by `rep`.
#[verifier::external_body]
pub(crate) fn regex_replace_all(src: &str, haystack: &str, rep: &str) -> (r: String)
    requires
        src@ == TOKEN_REGEX@,
        !has_char(rep@, '$'),
    ensures
        r@ == replace_tokens(haystack@, rep@),
{
    Regex::new(src).unwrap().replace_all(haystack, rep).to_string()
}

} // verus!
