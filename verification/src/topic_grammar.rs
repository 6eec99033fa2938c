//! The character classes and the token syntax of topic patterns, stated over `Seq<char>`.

use vstd::prelude::*;

verus! {

/// Characters that a topic level must not hold: anything outside `'!'..='~'` (so every
/// non-ASCII character too), and `'+'`, `'#'`, `'{'`, `'}'`.
pub open spec fn is_invalid_topic_char(c: char) -> bool {
    !('!' <= c && c <= '~') || c == '+' || c == '#' || c == '{' || c == '}'
}

/// `s` holds at least one invalid topic character.
pub open spec fn has_invalid_topic_char(s: Seq<char>) -> bool {
    exists|i: int| 0 <= i < s.len() && is_invalid_topic_char(#[trigger] s[i])
}

/// `s` holds the character `c`.
pub open spec fn has_char(s: Seq<char>, c: char) -> bool {
    exists|i: int| 0 <= i < s.len() && #[trigger] s[i] == c
}

/// `s` holds two consecutive slashes.
pub open spec fn has_double_slash(s: Seq<char>) -> bool {
    exists|i: int| 0 <= i && i + 1 < s.len() && #[trigger] s[i] == '/' && s[i + 1] == '/'
}

/// A replacement value or a topic namespace: not empty, no invalid character, no leading
/// or trailing `'/'`, no `"//"`.
pub open spec fn is_valid_replacement_text(s: Seq<char>) -> bool {
    &&& s.len() > 0
    &&& !has_invalid_topic_char(s)
    &&& s[0] != '/'
    &&& s[s.len() - 1] != '/'
    &&& !has_double_slash(s)
}

/// Unicode `White_Space` characters: those that `str::trim` removes and that `\s` matches.
pub open spec fn is_white_space(c: char) -> bool {
    ||| ('\u{9}' <= c && c <= '\u{d}')
    ||| c == ' '
    ||| c == '\u{85}'
    ||| c == '\u{a0}'
    ||| c == '\u{1680}'
    ||| ('\u{2000}' <= c && c <= '\u{200a}')
    ||| c == '\u{2028}'
    ||| c == '\u{2029}'
    ||| c == '\u{202f}'
    ||| c == '\u{205f}'
    ||| c == '\u{3000}'
}

/// Every character of `s` in `[lo, hi)` is white space.
pub open spec fn white_space_between(s: Seq<char>, lo: int, hi: int) -> bool {
    forall|k: int| lo <= k < hi ==> is_white_space(#[trigger] s[k])
}

/// `s` is empty once trimmed: it holds white space only.
pub open spec fn is_blank_text(s: Seq<char>) -> bool {
    white_space_between(s, 0, s.len() as int)
}

/// `s` has an empty topic level: a `'/'` preceded, after optional white space, by the start
/// or by another `'/'`, or followed by white space up to the end.
pub open spec fn has_empty_level(s: Seq<char>) -> bool {
    exists|i: int|
        0 <= i < s.len() && #[trigger] s[i] == '/' && {
            ||| white_space_between(s, 0, i)
            ||| white_space_between(s, i + 1, s.len() as int)
            ||| exists|j: int| i < j < s.len() && #[trigger] s[j] == '/' && white_space_between(s, i + 1, j)
        }
}

/// `[start, end)` is a token `{name}` of `s`: `'{'` at `start`, `'}'` at `end - 1`, and at
/// least one character between them, none of them `'}'`.
pub open spec fn is_token_span(s: Seq<char>, start: int, end: int) -> bool {
    &&& 0 <= start
    &&& start + 3 <= end
    &&& end <= s.len()
    &&& s[start] == '{'
    &&& s[end - 1] == '}'
    &&& forall|k: int| start < k < end - 1 ==> #[trigger] s[k] != '}'
}

/// A token of `s` starts at `start`.
pub open spec fn starts_token(s: Seq<char>, start: int) -> bool {
    exists|end: int| is_token_span(s, start, end)
}

/// Where the search for the `k`-th token starts: after the token before it.
pub open spec fn search_from(spans: Seq<(usize, usize)>, k: int) -> int {
    if k <= 0 {
        0
    } else {
        spans[k - 1].1 as int
    }
}

/// Where the text after the last token starts.
pub open spec fn tail_start(spans: Seq<(usize, usize)>) -> int {
    search_from(spans, spans.len() as int)
}

/// `spans` are the successive non-overlapping leftmost matches of the token expression
/// `\{[^}]+\}` in `s`, as `[start, end)` character positions.
#[verifier::opaque]
pub open spec fn are_token_spans(s: Seq<char>, spans: Seq<(usize, usize)>) -> bool {
    &&& forall|k: int|
        0 <= k < spans.len() ==> is_token_span(s, (#[trigger] spans[k]).0 as int, spans[k].1 as int)
    &&& forall|k: int| 0 <= k < spans.len() ==> search_from(spans, k) <= (#[trigger] spans[k]).0
    &&& forall|k: int, p: int|
        #![trigger spans[k], starts_token(s, p)]
        0 <= k < spans.len() && search_from(spans, k) <= p < spans[k].0 ==> !starts_token(s, p)
    &&& forall|p: int| tail_start(spans) <= p < s.len() ==> !#[trigger] starts_token(s, p)
}

/// The tokens of `s`: the one list of spans that `are_token_spans` allows.
pub open spec fn token_spans(s: Seq<char>) -> Seq<(usize, usize)> {
    choose|spans: Seq<(usize, usize)>| are_token_spans(s, spans)
}

/// A token that starts at `start` ends at the first `'}'` after its name starts.
pub proof fn lemma_token_end_unique(s: Seq<char>, start: int, e1: int, e2: int)
    requires
        is_token_span(s, start, e1),
        is_token_span(s, start, e2),
    ensures
        e1 == e2,
{
    if e1 < e2 {
        assert(s[e1 - 1] != '}');
    } else if e2 < e1 {
        assert(s[e2 - 1] != '}');
    }
}

/// Two token span lists of one text that start their search at the same place find the
/// same next token.
proof fn lemma_token_spans_step(s: Seq<char>, a: Seq<(usize, usize)>, b: Seq<(usize, usize)>, j: int)
    requires
        are_token_spans(s, a),
        are_token_spans(s, b),
        0 <= j < a.len(),
        j < b.len(),
        search_from(a, j) == search_from(b, j),
    ensures
        a[j] == b[j],
{
    reveal(are_token_spans);
    let sa = a[j].0 as int;
    let sb = b[j].0 as int;
    assert(is_token_span(s, sa, a[j].1 as int));
    assert(is_token_span(s, sb, b[j].1 as int));
    assert(starts_token(s, sa));
    assert(starts_token(s, sb));
    if sa < sb {
        assert(search_from(b, j) <= sa < b[j].0);
        assert(!starts_token(s, sa));
    } else if sb < sa {
        assert(search_from(a, j) <= sb < a[j].0);
        assert(!starts_token(s, sb));
    } else {
        lemma_token_end_unique(s, sa, a[j].1 as int, b[j].1 as int);
    }
}

/// Two token span lists of one text agree on their first `k` entries.
proof fn lemma_token_spans_agree(s: Seq<char>, a: Seq<(usize, usize)>, b: Seq<(usize, usize)>, k: int)
    requires
        are_token_spans(s, a),
        are_token_spans(s, b),
        0 <= k <= a.len(),
        k <= b.len(),
    ensures
        forall|i: int| 0 <= i < k ==> a[i] == b[i],
    decreases k,
{
    if k > 0 {
        let j = k - 1;
        lemma_token_spans_agree(s, a, b, j);
        assert(search_from(a, j) == search_from(b, j));
        lemma_token_spans_step(s, a, b, j);
    }
}

/// The token spans of a text are unique.
pub proof fn lemma_token_spans_unique(s: Seq<char>, a: Seq<(usize, usize)>, b: Seq<(usize, usize)>)
    requires
        are_token_spans(s, a),
        are_token_spans(s, b),
    ensures
        a == b,
{
    let n = if a.len() <= b.len() {
        a.len() as int
    } else {
        b.len() as int
    };
    lemma_token_spans_agree(s, a, b, n);
    reveal(are_token_spans);
    if a.len() > n {
        assert(search_from(a, n) == tail_start(b));
        assert(starts_token(s, a[n].0 as int));
        assert(false);
    }
    if b.len() > n {
        assert(search_from(b, n) == tail_start(a));
        assert(starts_token(s, b[n].0 as int));
        assert(false);
    }
    assert(a =~= b);
}

/// Each token span lies within the text.
pub proof fn lemma_token_span_bounds(s: Seq<char>, spans: Seq<(usize, usize)>, k: int)
    requires
        are_token_spans(s, spans),
        0 <= k < spans.len(),
    ensures
        spans[k].0 <= spans[k].1 <= s.len(),
{
    reveal(are_token_spans);
    assert(is_token_span(s, spans[k].0 as int, spans[k].1 as int));
}

/// Spans that `are_token_spans` allows are `token_spans`.
pub proof fn lemma_token_spans_are(s: Seq<char>, spans: Seq<(usize, usize)>)
    requires
        are_token_spans(s, spans),
    ensures
        token_spans(s) == spans,
        are_token_spans(s, token_spans(s)),
{
    let t = token_spans(s);
    assert(are_token_spans(s, t));
    lemma_token_spans_unique(s, spans, t);
}

} // verus!
