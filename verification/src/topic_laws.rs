//! Laws of topic patterns: facts that relate their operations to one another.

use vstd::prelude::*;

use vstd::utf8::{
    decode_utf8, encode_utf8, encode_utf8_decode_utf8, encode_utf8_valid_utf8, is_ascii_chars,
    is_ascii_chars_encode_utf8, is_char_boundary, is_char_boundary_iff_not_is_continuation_byte,
    is_char_boundary_start_end_of_seq,
};

use crate::text::byte_len_upto;
use crate::topic_grammar::{
    are_token_spans, has_char, has_invalid_topic_char, is_invalid_topic_char, is_token_span,
    is_valid_replacement_text, search_from, starts_token, tail_start, token_spans,
};
use crate::topic_processor::{
    after_level, expand_from, first_slash, lemma_first_slash_at, lemma_span_facts,
    lemma_tail_facts, level_value, new_outcome, parse_tokens_defined, parse_walk, parse_walk_ok,
    parsed_tokens, prepend, publish_from, publish_outcome, text_after, text_before, token_expansion,
    token_fault, token_name, value_offset, namespace_prefix, topic_past_namespace, PatternFault,
    TopicPatternView,
};

verus! {

/// The index of the first `'}'` of `s` at or after `i`, or `s.len()` where there is none.
pub open spec fn next_close(s: Seq<char>, i: int) -> int
    decreases s.len() - i,
{
    if i < 0 || i >= s.len() {
        s.len() as int
    } else if s[i] == '}' {
        i
    } else {
        next_close(s, i + 1)
    }
}

/// A token starts at `p`: `'{'`, then a character other than `'}'`, then a `'}'` later on.
pub open spec fn token_begins(s: Seq<char>, p: int) -> bool {
    &&& 0 <= p
    &&& p + 1 < s.len()
    &&& s[p] == '{'
    &&& s[p + 1] != '}'
    &&& next_close(s, p + 1) < s.len()
}

/// The tokens of `s` found by scanning from position `p` on.
pub open spec fn scan_tokens(s: Seq<char>, p: int) -> Seq<(usize, usize)>
    decreases s.len() - p,
{
    if p < 0 || p >= s.len() {
        Seq::empty()
    } else if token_begins(s, p) {
        let e = next_close(s, p + 1) + 1;
        proof {
            lemma_next_close(s, p + 1);
        }
        seq![(p as usize, e as usize)] + scan_tokens(s, e)
    } else {
        scan_tokens(s, p + 1)
    }
}

/// `next_close` is the first `'}'` from `i` on.
pub proof fn lemma_next_close(s: Seq<char>, i: int)
    requires
        0 <= i <= s.len(),
    ensures
        i <= next_close(s, i) <= s.len(),
        next_close(s, i) < s.len() ==> s[next_close(s, i)] == '}',
        forall|k: int| i <= k < next_close(s, i) ==> #[trigger] s[k] != '}',
    decreases s.len() - i,
{
    if i < s.len() && s[i] != '}' {
        lemma_next_close(s, i + 1);
    }
}

/// Looking for the next `'}'` in `a + r` past `a` is looking for it in `r`.
pub proof fn lemma_next_close_shift(a: Seq<char>, r: Seq<char>, q: int)
    requires
        0 <= q <= r.len(),
    ensures
        next_close(a + r, a.len() + q) == a.len() + next_close(r, q),
    decreases r.len() - q,
{
    let s = a + r;
    if q < r.len() {
        assert(s[a.len() + q] == r[q]);
        if r[q] != '}' {
            lemma_next_close_shift(a, r, q + 1);
        }
    }
}

/// `next_close` finds the first `'}'`.
pub proof fn lemma_next_close_at(s: Seq<char>, i: int, j: int)
    requires
        0 <= i <= j < s.len(),
        s[j] == '}',
        forall|k: int| i <= k < j ==> #[trigger] s[k] != '}',
    ensures
        next_close(s, i) == j,
    decreases j - i,
{
    if i < j {
        lemma_next_close_at(s, i + 1, j);
    }
}

/// A token starts at `p` exactly where `token_begins` holds, and it ends after the next `'}'`.
proof fn lemma_token_begins(s: Seq<char>, p: int)
    requires
        0 <= p < s.len(),
    ensures
        starts_token(s, p) <==> token_begins(s, p),
        token_begins(s, p) ==> is_token_span(s, p, next_close(s, p + 1) + 1),
{
    if p + 1 <= s.len() {
        lemma_next_close(s, p + 1);
    }
    if token_begins(s, p) {
        assert(is_token_span(s, p, next_close(s, p + 1) + 1));
    }
    if starts_token(s, p) {
        let e = choose|e: int| is_token_span(s, p, e);
        assert(s[e - 1] == '}');
        assert(s[p + 1] != '}');
        if next_close(s, p + 1) >= s.len() {
            assert(s[e - 1] != '}');
        }
    }
}

/// The spans found by scanning from `p` on are token spans that start at or after `p`, in
/// order, with no token starting in the gaps between them, nor after the last one.
#[verifier::opaque]
pub open spec fn scanned_from(s: Seq<char>, spans: Seq<(usize, usize)>, p: int) -> bool {
    &&& forall|k: int|
        0 <= k < spans.len() ==> is_token_span(s, (#[trigger] spans[k]).0 as int, spans[k].1 as int)
    &&& forall|k: int|
        0 <= k < spans.len() ==> (if k == 0 {
            p
        } else {
            spans[k - 1].1 as int
        }) <= (#[trigger] spans[k]).0
    &&& forall|k: int, q: int|
        #![trigger spans[k], starts_token(s, q)]
        0 <= k < spans.len() && (if k == 0 {
            p
        } else {
            spans[k - 1].1 as int
        }) <= q < spans[k].0 ==> !starts_token(s, q)
    &&& forall|q: int|
        (if spans.len() == 0 {
            p
        } else {
            spans[spans.len() - 1].1 as int
        }) <= q < s.len() ==> !#[trigger] starts_token(s, q)
}

/// A token span put in front of the spans scanned from its end gives the spans scanned from
/// its start.
proof fn lemma_scanned_prepend(s: Seq<char>, p: int, e: int, r: Seq<(usize, usize)>)
    requires
        scanned_from(s, r, e),
        is_token_span(s, p, e),
        s.len() <= usize::MAX,
    ensures
        scanned_from(s, seq![(p as usize, e as usize)] + r, p),
{
    reveal(scanned_from);
    let t = seq![(p as usize, e as usize)] + r;
    assert(t[0] == (p as usize, e as usize));
    assert forall|k: int| 0 < k < t.len() implies #[trigger] t[k] == r[k - 1] by {}
    assert forall|k: int| 0 <= k < t.len() implies is_token_span(s, (#[trigger] t[k]).0 as int, t[k].1 as int) by {
        if k > 0 {
            assert(t[k] == r[k - 1]);
        }
    }
    assert forall|k: int|
        0 <= k < t.len() implies (if k == 0 {
            p
        } else {
            t[k - 1].1 as int
        }) <= (#[trigger] t[k]).0 by {
        if k > 0 {
            assert(t[k] == r[k - 1]);
            if k > 1 {
                assert(t[k - 1] == r[k - 2]);
            }
        }
    }
    assert forall|k: int, q: int|
        #![trigger t[k], starts_token(s, q)]
        0 <= k < t.len() && (if k == 0 {
            p
        } else {
            t[k - 1].1 as int
        }) <= q < t[k].0 implies !starts_token(s, q) by {
        if k > 0 {
            assert(t[k] == r[k - 1]);
            if k > 1 {
                assert(t[k - 1] == r[k - 2]);
            }
        }
    }
    assert forall|q: int|
        (if t.len() == 0 {
            p
        } else {
            t[t.len() - 1].1 as int
        }) <= q < s.len() implies !#[trigger] starts_token(s, q) by {
        if r.len() > 0 {
            assert(t[t.len() - 1] == r[r.len() - 1]);
        }
    }
}

/// Where no token starts at `p`, the spans scanned from `p + 1` are those scanned from `p`.
proof fn lemma_scanned_skip(s: Seq<char>, p: int, r: Seq<(usize, usize)>)
    requires
        scanned_from(s, r, p + 1),
        !starts_token(s, p),
    ensures
        scanned_from(s, r, p),
{
    reveal(scanned_from);
    assert forall|k: int, q: int|
        #![trigger r[k], starts_token(s, q)]
        0 <= k < r.len() && (if k == 0 {
            p
        } else {
            r[k - 1].1 as int
        }) <= q < r[k].0 implies !starts_token(s, q) by {
        if q == p {
        }
    }
    assert forall|q: int|
        (if r.len() == 0 {
            p
        } else {
            r[r.len() - 1].1 as int
        }) <= q < s.len() implies !#[trigger] starts_token(s, q) by {
        if q == p {
        }
    }
}

/// Scanning from `p` on finds the tokens from `p` on.
proof fn lemma_scan_tokens(s: Seq<char>, p: int)
    requires
        0 <= p <= s.len(),
        s.len() <= usize::MAX,
    ensures
        scanned_from(s, scan_tokens(s, p), p),
    decreases s.len() - p,
{
    if p == s.len() {
        reveal(scanned_from);
    } else if token_begins(s, p) {
        lemma_token_begins(s, p);
        let e = next_close(s, p + 1) + 1;
        lemma_next_close(s, p + 1);
        lemma_scan_tokens(s, e);
        lemma_scanned_prepend(s, p, e, scan_tokens(s, e));
    } else {
        lemma_token_begins(s, p);
        lemma_scan_tokens(s, p + 1);
        lemma_scanned_skip(s, p, scan_tokens(s, p + 1));
    }
}

/// Every text that fits in memory has token spans: `token_spans` describes them.
pub proof fn lemma_token_spans_exist(s: Seq<char>)
    requires
        s.len() <= usize::MAX,
    ensures
        are_token_spans(s, token_spans(s)),
        token_spans(s) == scan_tokens(s, 0),
{
    lemma_scan_tokens(s, 0);
    let t = scan_tokens(s, 0);
    reveal(are_token_spans);
    reveal(scanned_from);
    assert forall|k: int| 0 <= k < t.len() implies search_from(t, k) <= (#[trigger] t[k]).0 by {}
    assert forall|k: int, q: int|
        #![trigger t[k], starts_token(s, q)]
        0 <= k < t.len() && search_from(t, k) <= q < t[k].0 implies !starts_token(s, q) by {}
    assert forall|q: int| tail_start(t) <= q < s.len() implies !#[trigger] starts_token(s, q) by {}
    assert(are_token_spans(s, t));
    crate::topic_grammar::lemma_token_spans_are(s, t);
}


// ---------------------------------------------------------------------------------------
// Scanning texts made of pieces
// ---------------------------------------------------------------------------------------

/// `sp` with every position moved on by `n`.
pub open spec fn shift_spans(sp: Seq<(usize, usize)>, n: int) -> Seq<(usize, usize)> {
    Seq::new(sp.len(), |i: int| ((sp[i].0 + n) as usize, (sp[i].1 + n) as usize))
}

/// Spans that lie in `r` in order, each long enough to hold its braces.
pub open spec fn spans_in(r: Seq<char>, sp: Seq<(usize, usize)>) -> bool {
    &&& forall|k: int| 0 <= k < sp.len() ==> (#[trigger] sp[k]).0 + 2 <= sp[k].1 <= r.len()
    &&& forall|k: int| 0 < k < sp.len() ==> sp[k - 1].1 <= (#[trigger] sp[k]).0
}

/// The scanned tokens of a text lie in it, in order.
proof fn lemma_scan_spans_in(r: Seq<char>)
    requires
        r.len() <= usize::MAX,
    ensures
        spans_in(r, scan_tokens(r, 0)),
{
    lemma_scan_tokens(r, 0);
    reveal(scanned_from);
    let sp = scan_tokens(r, 0);
    assert forall|k: int| 0 <= k < sp.len() implies (#[trigger] sp[k]).0 + 2 <= sp[k].1 <= r.len() by {
        assert(is_token_span(r, sp[k].0 as int, sp[k].1 as int));
    }
    assert forall|k: int| 0 < k < sp.len() implies sp[k - 1].1 <= (#[trigger] sp[k]).0 by {}
}

/// Past `a`, the token scan of `a + r` finds the tokens of `r`, moved on by the length of `a`.
proof fn lemma_scan_shift(a: Seq<char>, r: Seq<char>, q: int)
    requires
        0 <= q <= r.len(),
        a.len() + r.len() <= usize::MAX,
    ensures
        scan_tokens(a + r, a.len() + q) == shift_spans(scan_tokens(r, q), a.len() as int),
    decreases r.len() - q,
{
    let s = a + r;
    let n = a.len() as int;
    let p = n + q;
    if q == r.len() {
        assert(shift_spans(scan_tokens(r, q), n) =~= Seq::<(usize, usize)>::empty());
    } else {
        assert(s[p] == r[q]);
        if q + 1 < r.len() {
            assert(s[p + 1] == r[q + 1]);
        }
        lemma_next_close_shift(a, r, q + 1);
        assert(token_begins(s, p) == token_begins(r, q));
        if token_begins(r, q) {
            lemma_next_close(r, q + 1);
            let e = next_close(r, q + 1) + 1;
            lemma_scan_shift(a, r, e);
            assert(scan_tokens(s, p) == seq![(p as usize, (n + e) as usize)] + scan_tokens(s, n + e));
            assert(scan_tokens(r, q) == seq![(q as usize, e as usize)] + scan_tokens(r, e));
            assert(shift_spans(seq![(q as usize, e as usize)] + scan_tokens(r, e), n) =~= seq![
                (p as usize, (n + e) as usize),
            ] + shift_spans(scan_tokens(r, e), n));
        } else {
            lemma_scan_shift(a, r, q + 1);
        }
    }
}

/// A text without invalid characters holds no token: the scan of `c + r` finds the tokens of
/// `r`, moved on by the length of `c`.
proof fn lemma_scan_clean_prefix(c: Seq<char>, r: Seq<char>, p: int)
    requires
        !has_invalid_topic_char(c),
        0 <= p <= c.len(),
        c.len() + r.len() <= usize::MAX,
    ensures
        scan_tokens(c + r, p) == shift_spans(scan_tokens(r, 0), c.len() as int),
    decreases c.len() - p,
{
    let s = c + r;
    if p < c.len() {
        assert(s[p] == c[p]);
        assert(!is_invalid_topic_char(c[p]));
        assert(!token_begins(s, p));
        lemma_scan_clean_prefix(c, r, p + 1);
    } else {
        lemma_scan_shift(c, r, 0);
    }
}

/// The token `{name}`.
pub open spec fn braced(name: Seq<char>) -> Seq<char> {
    seq!['{'] + name + seq!['}']
}

/// The scan of a token `{name}` followed by `r` finds that token, then the tokens of `r`.
proof fn lemma_scan_token_prefix(name: Seq<char>, r: Seq<char>)
    requires
        name.len() > 0,
        !has_invalid_topic_char(name),
        name.len() + 2 + r.len() <= usize::MAX,
    ensures
        scan_tokens(braced(name) + r, 0) == seq![(0usize, (name.len() + 2) as usize)] + shift_spans(
            scan_tokens(r, 0),
            name.len() + 2int,
        ),
{
    let t = braced(name);
    let s = t + r;
    let n = name.len() as int;
    assert(s[0] == '{');
    assert(s[1] == name[0]);
    assert(!is_invalid_topic_char(name[0]));
    assert(s[n + 1] == '}');
    assert forall|k: int| 1 <= k < n + 1 implies #[trigger] s[k] != '}' by {
        assert(s[k] == name[k - 1]);
        assert(!is_invalid_topic_char(name[k - 1]));
    }
    lemma_next_close_at(s, 1, n + 1);
    assert(token_begins(s, 0));
    assert(t.len() == n + 2);
    lemma_scan_shift(t, r, 0);
}


/// Publishing `c + r` with the tokens of `r` moved past `c` publishes `r` after `c`.
proof fn lemma_publish_after_text(
    c: Seq<char>,
    r: Seq<char>,
    sp: Seq<(usize, usize)>,
    m: Map<Seq<char>, Seq<char>>,
    k: int,
)
    requires
        spans_in(r, sp),
        c.len() + r.len() <= usize::MAX,
        0 <= k <= sp.len(),
    ensures
        publish_from(c + r, shift_spans(sp, c.len() as int), m, k) == if k == 0 {
            prepend(publish_from(r, sp, m, 0), c)
        } else {
            publish_from(r, sp, m, k)
        },
    decreases sp.len() - k,
{
    let s = c + r;
    let n = c.len() as int;
    let t = shift_spans(sp, n);
    if k == sp.len() {
        if k == 0 {
            assert(text_after(s, t) =~= c + text_after(r, sp));
        } else {
            assert(t[k - 1].1 == sp[k - 1].1 + n);
            assert(text_after(s, t) =~= text_after(r, sp));
        }
    } else {
        lemma_publish_after_text(c, r, sp, m, k + 1);
        assert(t[k].0 == sp[k].0 + n);
        assert(t[k].1 == sp[k].1 + n);
        assert(token_name(s, t, k) =~= token_name(r, sp, k));
        if k == 0 {
            assert(text_before(s, t, k) =~= c + text_before(r, sp, k));
        } else {
            assert(t[k - 1].1 == sp[k - 1].1 + n);
            assert(text_before(s, t, k) =~= text_before(r, sp, k));
        }
        let name = token_name(r, sp, k);
        if m.contains_key(name) && is_valid_replacement_text(m[name]) {
            let rest = publish_from(r, sp, m, k + 1);
            if rest is Ok && k == 0 {
                let x = rest->Ok_0;
                let tb = text_before(r, sp, k);
                assert((c + tb) + m[name] + x =~= c + (tb + m[name] + x));
            }
        }
    }
}

/// Publishing a token `{name}` followed by `r`, from the token after it on, publishes `r`.
proof fn lemma_publish_after_token(
    name: Seq<char>,
    r: Seq<char>,
    sp: Seq<(usize, usize)>,
    m: Map<Seq<char>, Seq<char>>,
    k: int,
)
    requires
        spans_in(r, sp),
        name.len() + 2 + r.len() <= usize::MAX,
        0 <= k <= sp.len(),
    ensures
        publish_from(
            braced(name) + r,
            seq![(0usize, (name.len() + 2) as usize)] + shift_spans(sp, name.len() + 2int),
            m,
            k + 1,
        ) == publish_from(r, sp, m, k),
    decreases sp.len() - k,
{
    let s = braced(name) + r;
    let n = name.len() + 2int;
    let t = seq![(0usize, n as usize)] + shift_spans(sp, n);
    assert(braced(name).len() == n);
    assert(t[0] == (0usize, n as usize));
    if k == sp.len() {
        if k == 0 {
            assert(text_after(s, t) =~= text_after(r, sp));
        } else {
            assert(t[k] == shift_spans(sp, n)[k - 1]);
            assert(text_after(s, t) =~= text_after(r, sp));
        }
    } else {
        lemma_publish_after_token(name, r, sp, m, k + 1);
        assert(t[k + 1] == shift_spans(sp, n)[k]);
        assert(token_name(s, t, k + 1) =~= token_name(r, sp, k));
        if k == 0 {
            assert(text_before(s, t, k + 1) =~= text_before(r, sp, k));
        } else {
            assert(t[k] == shift_spans(sp, n)[k - 1]);
            assert(text_before(s, t, k + 1) =~= text_before(r, sp, k));
        }
    }
}


// ---------------------------------------------------------------------------------------
// What a pattern built without replacements looks like
// ---------------------------------------------------------------------------------------

/// Text without invalid topic characters is ASCII.
pub proof fn lemma_valid_text_is_ascii(x: Seq<char>)
    requires
        !has_invalid_topic_char(x),
    ensures
        is_ascii_chars(x),
{
    assert forall|i: int| 0 <= i < x.len() implies '\0' <= #[trigger] x[i] <= '\u{7f}' by {
        assert(!is_invalid_topic_char(x[i]));
    }
}

/// A pattern expanded without replacements, from its `k`-th token on, is the pattern's text
/// from there on, and that text is ASCII; no token from there on has a fault.
proof fn lemma_expand_plain(s: Seq<char>, sp: Seq<(usize, usize)>, k: int)
    requires
        are_token_spans(s, sp),
        0 <= k <= sp.len(),
        expand_from(s, sp, Map::empty(), k) is Ok,
    ensures
        0 <= search_from(sp, k) <= s.len(),
        expand_from(s, sp, Map::empty(), k)->Ok_0 == s.subrange(search_from(sp, k), s.len() as int),
        is_ascii_chars(s.subrange(search_from(sp, k), s.len() as int)),
        forall|j: int| k <= j < sp.len() ==> #[trigger] token_fault(s, sp, Map::empty(), j) is None,
    decreases sp.len() - k,
{
    let m = Map::<Seq<char>, Seq<char>>::empty();
    if k == sp.len() {
        lemma_tail_facts(s, sp);
        lemma_valid_text_is_ascii(text_after(s, sp));
    } else {
        lemma_span_facts(s, sp, k);
        assert(token_fault(s, sp, m, k) is None);
        lemma_expand_plain(s, sp, k + 1);
        let st = sp[k].0 as int;
        let en = sp[k].1 as int;
        let from = search_from(sp, k);
        assert(search_from(sp, k + 1) == en);
        let name = token_name(s, sp, k);
        lemma_valid_text_is_ascii(text_before(s, sp, k));
        lemma_valid_text_is_ascii(name);
        assert(token_expansion(s, sp, m, k) == text_before(s, sp, k) + s.subrange(st, en));
        assert(s.subrange(from, st) + s.subrange(st, en) + s.subrange(en, s.len() as int) =~= s.subrange(
            from,
            s.len() as int,
        ));
        assert(text_before(s, sp, k) + s.subrange(st, en) + s.subrange(en, s.len() as int) =~= s.subrange(
            from,
            s.len() as int,
        ));
        let whole = s.subrange(from, s.len() as int);
        assert forall|i: int| 0 <= i < whole.len() implies '\0' <= #[trigger] whole[i] <= '\u{7f}' by {
            if from + i < st {
                assert(whole[i] == text_before(s, sp, k)[i]);
            } else if from + i == st || from + i == en - 1 {
            } else if from + i < en - 1 {
                assert(whole[i] == name[from + i - st - 1]);
            } else {
                assert(whole[i] == s.subrange(en, s.len() as int)[from + i - en]);
            }
        }
    }
}


// ---------------------------------------------------------------------------------------
// Publishing and parsing back
// ---------------------------------------------------------------------------------------

/// Every token of `s` ends its level: a `'/'` or the end of `s` follows it.
pub open spec fn tokens_end_levels(s: Seq<char>) -> bool {
    let sp = token_spans(s);
    forall|k: int| 0 <= k < sp.len() ==> ((#[trigger] sp[k]).1 == s.len() || s[sp[k].1 as int] == '/')
}

/// `m` gives every token of `s` a valid value that holds no `'/'`.
pub open spec fn fills_every_token(s: Seq<char>, m: Map<Seq<char>, Seq<char>>) -> bool {
    let sp = token_spans(s);
    forall|k: int|
        0 <= k < sp.len() ==> {
            let n = #[trigger] token_name(s, sp, k);
            &&& m.contains_key(n)
            &&& is_valid_replacement_text(m[n])
            &&& !has_char(m[n], '/')
        }
}

/// The names of the tokens of `s` from the `k`-th on.
pub open spec fn names_from(s: Seq<char>, sp: Seq<(usize, usize)>, k: int) -> Set<Seq<char>> {
    Set::new(|x: Seq<char>| exists|j: int| k <= j < sp.len() && x == #[trigger] token_name(s, sp, j))
}

/// The names of the tokens of `s`.
pub open spec fn token_names(s: Seq<char>) -> Set<Seq<char>> {
    names_from(s, token_spans(s), 0)
}

/// The bytes of ASCII text.
pub open spec fn ascii_bytes(x: Seq<char>) -> Seq<u8> {
    x.map_values(|c: char| c as u8)
}

/// ASCII text is encoded one byte per character.
proof fn lemma_ascii_encode(x: Seq<char>)
    requires
        is_ascii_chars(x),
    ensures
        encode_utf8(x) == ascii_bytes(x),
{
    is_ascii_chars_encode_utf8(x);
    assert(encode_utf8(x) =~= ascii_bytes(x));
}

/// The published text from the `k`-th token on.
pub open spec fn published(s: Seq<char>, sp: Seq<(usize, usize)>, m: Map<Seq<char>, Seq<char>>, k: int) -> Seq<char> {
    publish_from(s, sp, m, k)->Ok_0
}

/// The conditions under which the walk below holds.
pub open spec fn walk_setting(s: Seq<char>, sp: Seq<(usize, usize)>, m: Map<Seq<char>, Seq<char>>) -> bool {
    &&& are_token_spans(s, sp)
    &&& is_ascii_chars(s)
    &&& forall|j: int| 0 <= j < sp.len() ==> #[trigger] token_fault(s, sp, Map::empty(), j) is None
    &&& forall|j: int| 0 <= j < sp.len() ==> ((#[trigger] sp[j]).1 == s.len() || s[sp[j].1 as int] == '/')
    &&& forall|j: int|
        0 <= j < sp.len() ==> {
            let n = #[trigger] token_name(s, sp, j);
            &&& m.contains_key(n)
            &&& is_valid_replacement_text(m[n])
            &&& !has_char(m[n], '/')
        }
    &&& is_ascii_chars(text_after(s, sp))
}

/// Publishing from the `k`-th token on succeeds, gives ASCII text, and starts with `'/'`
/// where `k` is not the first token and text follows.
proof fn lemma_published_shape(s: Seq<char>, sp: Seq<(usize, usize)>, m: Map<Seq<char>, Seq<char>>, k: int)
    requires
        walk_setting(s, sp, m),
        0 <= k <= sp.len(),
    ensures
        publish_from(s, sp, m, k) is Ok,
        is_ascii_chars(published(s, sp, m, k)),
        k < sp.len() ==> published(s, sp, m, k) == text_before(s, sp, k) + m[token_name(s, sp, k)] + published(
            s,
            sp,
            m,
            k + 1,
        ),
        k == sp.len() ==> published(s, sp, m, k) == text_after(s, sp),
        0 < k && published(s, sp, m, k).len() > 0 ==> published(s, sp, m, k)[0] == '/',
        0 < k < sp.len() ==> published(s, sp, m, k).len() > 0,
    decreases sp.len() - k,
{
    if k < sp.len() {
        lemma_published_shape(s, sp, m, k + 1);
        lemma_span_facts(s, sp, k);
        let name = token_name(s, sp, k);
        assert(token_fault(s, sp, Map::empty(), k) is None);
        let tb = text_before(s, sp, k);
        lemma_valid_text_is_ascii(tb);
        lemma_valid_text_is_ascii(m[name]);
        let r = published(s, sp, m, k);
        assert(r == tb + m[name] + published(s, sp, m, k + 1));
        assert forall|i: int| 0 <= i < r.len() implies '\0' <= #[trigger] r[i] <= '\u{7f}' by {
            if i < tb.len() {
                assert(r[i] == tb[i]);
            } else if i < tb.len() + m[name].len() {
                assert(r[i] == m[name][i - tb.len()]);
            } else {
                assert(r[i] == published(s, sp, m, k + 1)[i - tb.len() - m[name].len()]);
            }
        }
        if 0 < k {
            lemma_span_facts(s, sp, k - 1);
            assert(sp[k - 1].1 != sp[k].0);
            assert(search_from(sp, k) == sp[k - 1].1);
            assert(s[sp[k - 1].1 as int] == '/');
            assert(tb[0] == '/');
            assert(r[0] == tb[0]);
        }
    } else {
        lemma_tail_facts(s, sp);
        if 0 < k && text_after(s, sp).len() > 0 {
            lemma_span_facts(s, sp, k - 1);
            assert(text_after(s, sp)[0] == s[sp[k - 1].1 as int]);
        }
    }
}


/// The bytes that the parse walk meets at the `k`-th token when it reads a published topic:
/// the whole topic at the first token, and after that what follows the `'/'` that ends the
/// previous value.
pub open spec fn walk_bytes(s: Seq<char>, sp: Seq<(usize, usize)>, m: Map<Seq<char>, Seq<char>>, k: int) -> Seq<u8> {
    let r = published(s, sp, m, k);
    if k == 0 {
        ascii_bytes(r)
    } else {
        ascii_bytes(r.drop_first())
    }
}

/// ASCII text has as many bytes as characters up to any position.
proof fn lemma_ascii_byte_len(s: Seq<char>, i: int)
    requires
        is_ascii_chars(s),
        0 <= i <= s.len(),
    ensures
        byte_len_upto(s, i) == i,
{
    let t = s.subrange(0, i);
    assert(is_ascii_chars(t)) by {
        assert forall|j: int| 0 <= j < t.len() implies '\0' <= #[trigger] t[j] <= '\u{7f}' by {
            assert(t[j] == s[j]);
        }
    }
    is_ascii_chars_encode_utf8(t);
}

/// An ASCII byte of an ASCII encoding is `'/'` exactly where the character is.
proof fn lemma_ascii_slash(c: char)
    requires
        '\0' <= c <= '\u{7f}',
    ensures
        (c as u8 == 0x2f) <==> (c == '/'),
        (c as u8) < 0x80,
{
    assert((c as u32) < 0x80);
    assert(c as u8 == (c as u32) as u8);
}

/// The parse walk over a published topic, from the `k`-th token on, stays within the topic
/// and on character boundaries, and finds for each token the value that was published for it.
proof fn lemma_walk(
    s: Seq<char>,
    sp: Seq<(usize, usize)>,
    m: Map<Seq<char>, Seq<char>>,
    k: int,
    acc: Map<Seq<char>, Seq<char>>,
)
    requires
        walk_setting(s, sp, m),
        0 <= k < sp.len(),
    ensures
        parse_walk_ok(s, sp, walk_bytes(s, sp, m, k), k),
        parse_walk(s, sp, walk_bytes(s, sp, m, k), k, acc) == acc.union_prefer_right(
            m.restrict(names_from(s, sp, k)),
        ),
    decreases sp.len() - k,
{
    lemma_published_shape(s, sp, m, k);
    lemma_published_shape(s, sp, m, k + 1);
    lemma_span_facts(s, sp, k);
    let st = sp[k].0 as int;
    let en = sp[k].1 as int;
    let tb = text_before(s, sp, k);
    let name = token_name(s, sp, k);
    let v = m[name];
    let rest = published(s, sp, m, k + 1);
    let r = published(s, sp, m, k);
    let b = walk_bytes(s, sp, m, k);
    assert(token_fault(s, sp, Map::empty(), k) is None);
    lemma_valid_text_is_ascii(v);

    // Where the value starts
    let lead: int = if k == 0 {
        0
    } else {
        1
    };
    lemma_ascii_byte_len(s, st);
    if k > 0 {
        lemma_span_facts(s, sp, k - 1);
        lemma_ascii_byte_len(s, sp[k - 1].1 as int);
        assert(sp[k - 1].1 != sp[k].0);
    }
    let off = value_offset(s, sp, k);
    assert(off == tb.len() - lead);
    let shown = if k == 0 {
        r
    } else {
        r.drop_first()
    };
    assert(b == ascii_bytes(shown));
    assert(shown =~= r.subrange(lead, r.len() as int));
    let rem = b.subrange(off, b.len() as int);
    assert(rem =~= ascii_bytes(v + rest));

    // The value ends at the next '/'
    assert forall|j: int| 0 <= j < v.len() implies !crate::topic_processor::is_slash_byte(#[trigger] rem[j]) by {
        assert(rem[j] == v[j] as u8);
        lemma_ascii_slash(v[j]);
        assert(v[j] != '/');
    }
    if v.len() < rem.len() {
        assert(rem[v.len() as int] == rest[0] as u8);
        lemma_ascii_slash(rest[0]);
    }
    lemma_first_slash_at(rem, v.len() as int);
    assert(level_value(rem) =~= ascii_bytes(v));
    lemma_ascii_encode(v);
    encode_utf8_decode_utf8(v);

    // The cut lies on a character boundary
    lemma_ascii_encode(shown);
    encode_utf8_valid_utf8(shown);
    if off < b.len() {
        is_char_boundary_iff_not_is_continuation_byte(b, off);
        lemma_ascii_slash(shown[off]);
        assert(b[off] == shown[off] as u8);
    } else {
        is_char_boundary_start_end_of_seq(b);
    }
    assert(is_char_boundary(b, off));

    let acc2 = acc.insert(name, v);
    assert(decode_utf8(level_value(rem)) == v);
    assert(parse_walk(s, sp, b, k, acc) == parse_walk(s, sp, after_level(rem), k + 1, acc2));
    assert(parse_walk_ok(s, sp, b, k) == parse_walk_ok(s, sp, after_level(rem), k + 1));
    assert(names_from(s, sp, k) =~= names_from(s, sp, k + 1).insert(name)) by {
        assert forall|x: Seq<char>| names_from(s, sp, k).contains(x) implies names_from(s, sp, k + 1).insert(
            name,
        ).contains(x) by {
            let j = choose|j: int| k <= j < sp.len() && x == #[trigger] token_name(s, sp, j);
            if j > k {
                assert(names_from(s, sp, k + 1).contains(x));
            }
        }
        assert forall|x: Seq<char>| names_from(s, sp, k + 1).insert(name).contains(x) implies names_from(
            s,
            sp,
            k,
        ).contains(x) by {
            if x != name {
                let j = choose|j: int| k + 1 <= j < sp.len() && x == #[trigger] token_name(s, sp, j);
                assert(k <= j);
            }
        }
    }
    if k + 1 < sp.len() {
        assert(rest.len() > 0);
        assert(after_level(rem) =~= walk_bytes(s, sp, m, k + 1));
        lemma_walk(s, sp, m, k + 1, acc2);
        assert(acc2.union_prefer_right(m.restrict(names_from(s, sp, k + 1))) =~= acc.union_prefer_right(
            m.restrict(names_from(s, sp, k)),
        ));
    } else {
        assert(parse_walk_ok(s, sp, after_level(rem), k + 1));
        assert(parse_walk(s, sp, after_level(rem), k + 1, acc2) == acc2);
        assert(names_from(s, sp, k + 1) =~= Set::<Seq<char>>::empty());
        assert(acc2.union_prefer_right(m.restrict(names_from(s, sp, k + 1))) =~= acc.union_prefer_right(
            m.restrict(names_from(s, sp, k)),
        ));
    }
}


/// Without a namespace, the parse walk reads the whole topic.
proof fn lemma_walk_without_namespace(v: TopicPatternView, topic: Seq<char>)
    requires
        v.namespace is None,
    ensures
        topic_past_namespace(v, topic) == encode_utf8(topic),
        parse_tokens_defined(v, topic) == parse_walk_ok(
            v.static_pattern,
            token_spans(v.static_pattern),
            encode_utf8(topic),
            0,
        ),
{
    let b = encode_utf8(topic);
    encode_utf8_valid_utf8(topic);
    assert(namespace_prefix(v.namespace) =~= Seq::<char>::empty());
    assert(encode_utf8(Seq::<char>::empty()).len() == 0);
    assert(b.subrange(0, b.len() as int) =~= b);
}

/// For a pattern made without a namespace and without initial replacements, whose tokens each
/// end a level, publishing with values that are valid replacements and hold no `'/'`
/// succeeds, `parse_tokens` can read the topic, and it finds each token's value.
proof fn lemma_parse_recovers_plain(v: TopicPatternView, m: Map<Seq<char>, Seq<char>>)
    requires
        v.namespace is None,
        new_outcome(v.static_pattern, v.share_name, None, Map::empty()) == Ok::<Seq<char>, PatternFault>(
            v.dynamic_pattern,
        ),
        v.static_pattern.len() <= usize::MAX,
        tokens_end_levels(v.static_pattern),
        fills_every_token(v.static_pattern, m),
    ensures
        publish_outcome(v, m) is Ok,
        parse_tokens_defined(v, publish_outcome(v, m)->Ok_0),
        parsed_tokens(v, publish_outcome(v, m)->Ok_0) == m.restrict(token_names(v.static_pattern)),
        is_ascii_chars(publish_outcome(v, m)->Ok_0),
{
    let s = v.static_pattern;
    lemma_token_spans_exist(s);
    let sp = token_spans(s);
    let e = expand_from(s, sp, Map::empty(), 0);
    assert(prepend(e, Seq::<char>::empty()) == Ok::<Seq<char>, PatternFault>(v.dynamic_pattern));
    assert(e is Ok);
    assert(Seq::<char>::empty() + e->Ok_0 =~= e->Ok_0);
    lemma_expand_plain(s, sp, 0);
    assert(s.subrange(0, s.len() as int) =~= s);
    assert(v.dynamic_pattern == s);
    lemma_tail_facts(s, sp);
    assert(is_ascii_chars(text_after(s, sp))) by {
        let t = text_after(s, sp);
        assert forall|j: int| 0 <= j < t.len() implies '\0' <= #[trigger] t[j] <= '\u{7f}' by {
            assert(t[j] == s[crate::topic_grammar::tail_start(sp) + j]);
        }
    }
    assert(walk_setting(s, sp, m));
    lemma_published_shape(s, sp, m, 0);
    let topic = published(s, sp, m, 0);
    assert(publish_outcome(v, m) == publish_from(s, sp, m, 0));
    lemma_ascii_encode(topic);
    assert(encode_utf8(topic) == walk_bytes(s, sp, m, 0));
    lemma_walk_without_namespace(v, topic);
    if sp.len() == 0 {
        assert(token_names(s) =~= Set::<Seq<char>>::empty());
        assert(m.restrict(token_names(s)) =~= Map::<Seq<char>, Seq<char>>::empty());
    } else {
        lemma_walk(s, sp, m, 0, Map::empty());
        assert(Map::<Seq<char>, Seq<char>>::empty().union_prefer_right(m.restrict(names_from(s, sp, 0)))
            =~= m.restrict(token_names(s)));
    }
}


/// A pattern that expands with initial replacements expands without them too.
proof fn lemma_expand_without_replacements(
    s: Seq<char>,
    sp: Seq<(usize, usize)>,
    initial: Map<Seq<char>, Seq<char>>,
    k: int,
)
    requires
        0 <= k <= sp.len(),
        expand_from(s, sp, initial, k) is Ok,
    ensures
        expand_from(s, sp, Map::empty(), k) is Ok,
    decreases sp.len() - k,
{
    if k < sp.len() {
        assert(token_fault(s, sp, initial, k) is None);
        assert(token_fault(s, sp, Map::empty(), k) is None);
        lemma_expand_without_replacements(s, sp, initial, k + 1);
    }
}

/// Publishing a pattern after its initial replacements publishes the pattern before them,
/// with the initial values in place of the values given for those tokens.
proof fn lemma_publish_expanded(
    s: Seq<char>,
    sp: Seq<(usize, usize)>,
    initial: Map<Seq<char>, Seq<char>>,
    m: Map<Seq<char>, Seq<char>>,
    k: int,
)
    requires
        are_token_spans(s, sp),
        0 <= k <= sp.len(),
        expand_from(s, sp, initial, k) is Ok,
        expand_from(s, sp, initial, k)->Ok_0.len() <= usize::MAX,
        publish_from(s, sp, m.union_prefer_right(initial), k) is Ok,
    ensures
        publish_from(
            expand_from(s, sp, initial, k)->Ok_0,
            scan_tokens(expand_from(s, sp, initial, k)->Ok_0, 0),
            m,
            0,
        ) == publish_from(s, sp, m.union_prefer_right(initial), k),
    decreases sp.len() - k,
{
    let big = m.union_prefer_right(initial);
    let e = expand_from(s, sp, initial, k)->Ok_0;
    if k == sp.len() {
        let empty = Seq::<char>::empty();
        assert(e + empty =~= e);
        lemma_scan_clean_prefix(e, empty, 0);
        assert(scan_tokens(empty, 0) == Seq::<(usize, usize)>::empty());
        assert(shift_spans(Seq::<(usize, usize)>::empty(), e.len() as int) =~= Seq::<(usize, usize)>::empty());
        assert(text_after(e, Seq::<(usize, usize)>::empty()) =~= e);
    } else {
        lemma_span_facts(s, sp, k);
        assert(token_fault(s, sp, initial, k) is None);
        let e1 = expand_from(s, sp, initial, k + 1)->Ok_0;
        let tb = text_before(s, sp, k);
        let name = token_name(s, sp, k);
        assert(e == token_expansion(s, sp, initial, k) + e1);
        lemma_publish_expanded(s, sp, initial, m, k + 1);
        lemma_scan_spans_in(e1);
        assert(name.len() > 0) by {
            if name.len() == 0 {
                assert(crate::topic_grammar::is_blank_text(name));
            }
        }
        let rest = publish_from(s, sp, big, k + 1);
        if initial.contains_key(name) {
            let c = tb + initial[name];
            assert(e == c + e1);
            assert(!has_invalid_topic_char(c)) by {
                if has_invalid_topic_char(c) {
                    let i = choose|i: int| 0 <= i < c.len() && is_invalid_topic_char(#[trigger] c[i]);
                    if i < tb.len() {
                        assert(c[i] == tb[i]);
                    } else {
                        assert(c[i] == initial[name][i - tb.len()]);
                    }
                }
            }
            lemma_scan_clean_prefix(c, e1, 0);
            lemma_publish_after_text(c, e1, scan_tokens(e1, 0), m, 0);
            assert(big[name] == initial[name]);
        } else {
            let st = sp[k].0 as int;
            let en = sp[k].1 as int;
            let tok = braced(name);
            assert(s.subrange(st, en) =~= tok);
            let r = tok + e1;
            assert(e =~= tb + r);
            lemma_scan_clean_prefix(tb, r, 0);
            lemma_scan_token_prefix(name, e1);
            lemma_scan_spans_in(r);
            lemma_publish_after_text(tb, r, scan_tokens(r, 0), m, 0);
            let ts = scan_tokens(r, 0);
            assert(ts[0] == (0usize, (name.len() + 2) as usize));
            assert(text_before(r, ts, 0) =~= Seq::<char>::empty());
            assert(token_name(r, ts, 0) =~= name);
            lemma_publish_after_token(name, e1, scan_tokens(e1, 0), m, 0);
            assert(big[name] == m[name]);
            assert(publish_from(r, ts, m, 0) == prepend(rest, Seq::<char>::empty() + m[name]));
            let x = rest->Ok_0;
            assert(tb + ((Seq::<char>::empty() + m[name]) + x) =~= tb + m[name] + x);
        }
    }
}

/// The law below, for a pattern made without a namespace; the topic is ASCII text.
proof fn lemma_parse_recovers_without_namespace(
    v: TopicPatternView,
    initial: Map<Seq<char>, Seq<char>>,
    m: Map<Seq<char>, Seq<char>>,
)
    requires
        v.namespace is None,
        new_outcome(v.static_pattern, v.share_name, None, initial) == Ok::<Seq<char>, PatternFault>(
            v.dynamic_pattern,
        ),
        v.static_pattern.len() <= usize::MAX,
        v.dynamic_pattern.len() <= usize::MAX,
        tokens_end_levels(v.static_pattern),
        fills_every_token(v.static_pattern, m.union_prefer_right(initial)),
    ensures
        publish_outcome(v, m) is Ok,
        parse_tokens_defined(v, publish_outcome(v, m)->Ok_0),
        parsed_tokens(v, publish_outcome(v, m)->Ok_0) == m.union_prefer_right(initial).restrict(
            token_names(v.static_pattern),
        ),
        is_ascii_chars(publish_outcome(v, m)->Ok_0),
{
    let s = v.static_pattern;
    let big = m.union_prefer_right(initial);
    lemma_token_spans_exist(s);
    let sp = token_spans(s);
    let e = expand_from(s, sp, initial, 0);
    assert(prepend(e, Seq::<char>::empty()) == Ok::<Seq<char>, PatternFault>(v.dynamic_pattern));
    assert(Seq::<char>::empty() + e->Ok_0 =~= e->Ok_0);
    assert(v.dynamic_pattern == e->Ok_0);
    lemma_expand_without_replacements(s, sp, initial, 0);
    lemma_expand_plain(s, sp, 0);
    assert(s.subrange(0, s.len() as int) =~= s);
    let plain = expand_from(s, sp, Map::empty(), 0)->Ok_0;
    assert(plain == s);
    assert(Seq::<char>::empty() + plain =~= plain);
    let w = TopicPatternView { static_pattern: s, dynamic_pattern: s, share_name: v.share_name, namespace: None };
    assert(new_outcome(s, v.share_name, None, Map::empty()) == Ok::<Seq<char>, PatternFault>(s));
    lemma_parse_recovers_plain(w, big);
    assert(publish_outcome(w, big) == publish_from(s, sp, big, 0));
    lemma_publish_expanded(s, sp, initial, m, 0);
    lemma_token_spans_exist(v.dynamic_pattern);
    assert(publish_outcome(v, m) == publish_outcome(w, big));
    let topic = publish_outcome(v, m)->Ok_0;
    lemma_walk_without_namespace(v, topic);
    lemma_walk_without_namespace(w, topic);
}

/// Parsing a published topic gives back the values it was published with.
///
/// For a pattern whose tokens each end a level (a `'/'` or the end follows each), where every
/// token has a valid value that holds no `'/'` (the initial replacement where the pattern was
/// made with one, else the value given), with or without a namespace: publishing succeeds,
/// `parse_tokens` can read the topic, and it finds for each token the value that the topic
/// holds for it.
pub proof fn law_parse_recovers_published_values(
    v: TopicPatternView,
    initial: Map<Seq<char>, Seq<char>>,
    m: Map<Seq<char>, Seq<char>>,
)
    requires
        new_outcome(v.static_pattern, v.share_name, v.namespace, initial) == Ok::<Seq<char>, PatternFault>(
            v.dynamic_pattern,
        ),
        v.static_pattern.len() <= usize::MAX,
        v.dynamic_pattern.len() <= usize::MAX,
        tokens_end_levels(v.static_pattern),
        fills_every_token(v.static_pattern, m.union_prefer_right(initial)),
    ensures
        publish_outcome(v, m) is Ok,
        parse_tokens_defined(v, publish_outcome(v, m)->Ok_0),
        parsed_tokens(v, publish_outcome(v, m)->Ok_0) == m.union_prefer_right(initial).restrict(
            token_names(v.static_pattern),
        ),
{
    match v.namespace {
        None => {
            lemma_parse_recovers_without_namespace(v, initial, m);
        },
        Some(n) => {
            let s = v.static_pattern;
            lemma_token_spans_exist(s);
            let e = expand_from(s, token_spans(s), initial, 0)->Ok_0;
            let c = n + seq!['/'];
            assert(v.dynamic_pattern == c + e);
            let v0 = TopicPatternView {
                static_pattern: s,
                dynamic_pattern: e,
                share_name: v.share_name,
                namespace: None,
            };
            assert(Seq::<char>::empty() + e =~= e);
            assert(new_outcome(s, v.share_name, None, initial) == Ok::<Seq<char>, PatternFault>(e));
            lemma_parse_recovers_without_namespace(v0, initial, m);
            let p = publish_outcome(v0, m)->Ok_0;

            // The publish topic is the namespace, a '/', and the topic without the namespace.
            assert(!has_invalid_topic_char(c)) by {
                if has_invalid_topic_char(c) {
                    let i = choose|i: int| 0 <= i < c.len() && is_invalid_topic_char(#[trigger] c[i]);
                    if i < n.len() {
                        assert(c[i] == n[i]);
                    }
                }
            }
            lemma_scan_clean_prefix(c, e, 0);
            lemma_token_spans_exist(e);
            lemma_token_spans_exist(v.dynamic_pattern);
            lemma_scan_spans_in(e);
            lemma_publish_after_text(c, e, scan_tokens(e, 0), m, 0);
            assert(publish_outcome(v, m) == Ok::<Seq<char>, (Seq<char>, Seq<char>)>(c + p));

            // Past the namespace, the parse walk reads the topic without the namespace.
            let t = c + p;
            lemma_valid_text_is_ascii(c);
            crate::text::lemma_encode_concat(c, p);
            let b = encode_utf8(t);
            let k = encode_utf8(c).len() as int;
            assert(namespace_prefix(v.namespace) == c);
            assert(b.subrange(k, b.len() as int) =~= encode_utf8(p));
            lemma_walk_without_namespace(v0, p);
            encode_utf8_valid_utf8(t);
            assert(is_char_boundary(b, k)) by {
                if k < b.len() {
                    lemma_ascii_encode(p);
                    assert(b[k] == encode_utf8(p)[0]);
                    assert(p.len() > 0);
                    lemma_ascii_slash(p[0]);
                    is_char_boundary_iff_not_is_continuation_byte(b, k);
                } else {
                    is_char_boundary_start_end_of_seq(b);
                }
            }
        },
    }
}


// ---------------------------------------------------------------------------------------
// Further laws
// ---------------------------------------------------------------------------------------

/// A replacement fault found from the `k`-th token on names a token value of the map that
/// is not a valid replacement.
proof fn lemma_replacement_fault(s: Seq<char>, sp: Seq<(usize, usize)>, m: Map<Seq<char>, Seq<char>>, k: int)
    requires
        0 <= k <= sp.len(),
    ensures
        expand_from(s, sp, m, k) matches Err(PatternFault::Replacement(n, v)) ==> m.contains_key(n) && m[n] == v
            && !is_valid_replacement_text(v),
    decreases sp.len() - k,
{
    if k < sp.len() {
        lemma_replacement_fault(s, sp, m, k + 1);
    }
}

/// `TopicPattern::new` refuses an initial value for a token only where that value is not a
/// valid replacement (empty, an invalid character, a leading or trailing `'/'`, or `"//"`):
/// the refusal names the token and the value the map holds for it.
pub proof fn law_initial_value_refused_only_if_invalid(
    pattern: Seq<char>,
    share_name: Option<Seq<char>>,
    namespace: Option<Seq<char>>,
    m: Map<Seq<char>, Seq<char>>,
)
    ensures
        new_outcome(pattern, share_name, namespace, m) matches Err(PatternFault::Replacement(n, v))
            ==> m.contains_key(n) && m[n] == v && !is_valid_replacement_text(v),
{
    lemma_replacement_fault(pattern, token_spans(pattern), m, 0);
}

/// With every token given a value that is a valid replacement, expanding from the `k`-th
/// token on puts each value in place of its token, as publishing does.
proof fn lemma_expand_as_publish(s: Seq<char>, sp: Seq<(usize, usize)>, m: Map<Seq<char>, Seq<char>>, k: int)
    requires
        are_token_spans(s, sp),
        0 <= k <= sp.len(),
        expand_from(s, sp, Map::empty(), k) is Ok,
        forall|j: int|
            0 <= j < sp.len() ==> m.contains_key(#[trigger] token_name(s, sp, j)) && is_valid_replacement_text(
                m[token_name(s, sp, j)],
            ),
    ensures
        expand_from(s, sp, m, k) is Ok,
        publish_from(s, sp, m, k) is Ok,
        expand_from(s, sp, m, k)->Ok_0 == publish_from(s, sp, m, k)->Ok_0,
    decreases sp.len() - k,
{
    if k < sp.len() {
        lemma_expand_as_publish(s, sp, m, k + 1);
        assert(token_fault(s, sp, Map::empty(), k) is None);
        assert(m.contains_key(token_name(s, sp, k)));
        assert(token_fault(s, sp, m, k) is None);
    }
}

/// Replacing every token of a pattern when it is made, each with a valid replacement value,
/// gives the publish topic that the pattern made without replacements gives for those
/// values: each value, a valid replacement (an inner `'/'` included), stands in place of its
/// token.
pub proof fn law_initial_replacement_substitutes_values(
    pattern: Seq<char>,
    share_name: Option<Seq<char>>,
    namespace: Option<Seq<char>>,
    m: Map<Seq<char>, Seq<char>>,
)
    requires
        new_outcome(pattern, share_name, namespace, Map::empty()) is Ok,
        pattern.len() <= usize::MAX,
        new_outcome(pattern, share_name, namespace, Map::empty())->Ok_0.len() <= usize::MAX,
        forall|n: Seq<char>| #[trigger] token_names(pattern).contains(n) ==> m.contains_key(n) && is_valid_replacement_text(m[n]),
    ensures
        new_outcome(pattern, share_name, namespace, m) is Ok,
        publish_outcome(crate::publish_laws::made_pattern(pattern, share_name, namespace, Map::empty()), m) is Ok,
        new_outcome(pattern, share_name, namespace, m)->Ok_0 == publish_outcome(
            crate::publish_laws::made_pattern(pattern, share_name, namespace, Map::empty()),
            m,
        )->Ok_0,
{
    let s = pattern;
    lemma_token_spans_exist(s);
    let sp = token_spans(s);
    assert forall|j: int| 0 <= j < sp.len() implies m.contains_key(#[trigger] token_name(s, sp, j))
        && is_valid_replacement_text(m[token_name(s, sp, j)]) by {
        let n = token_name(s, sp, j);
        assert(0 <= j < sp.len() && n == token_name(s, sp, j));
        assert(names_from(s, sp, 0).contains(n));
        assert(token_names(pattern).contains(n));
    }
    lemma_expand_as_publish(s, sp, m, 0);
    lemma_expand_plain(s, sp, 0);
    assert(s.subrange(0, s.len() as int) =~= s);
    let c = namespace_prefix(namespace);
    let d0 = new_outcome(s, share_name, namespace, Map::empty())->Ok_0;
    assert(d0 == c + s);
    let p = publish_from(s, sp, m, 0)->Ok_0;
    assert(new_outcome(s, share_name, namespace, m)->Ok_0 == c + p);
    lemma_token_spans_exist(d0);
    match namespace {
        None => {
            assert(c + s =~= s);
            assert(c + p =~= p);
        },
        Some(n) => {
            assert(!has_invalid_topic_char(c)) by {
                if has_invalid_topic_char(c) {
                    let i = choose|i: int| 0 <= i < c.len() && is_invalid_topic_char(#[trigger] c[i]);
                    if i < n.len() {
                        assert(c[i] == n[i]);
                    }
                }
            }
            lemma_scan_clean_prefix(c, s, 0);
            lemma_scan_spans_in(s);
            lemma_publish_after_text(c, s, scan_tokens(s, 0), m, 0);
        },
    }
}

/// Expanding from the `k`-th token on succeeds only where no token from there on has a
/// fault and the text after the last token holds no invalid character.
proof fn lemma_expand_ok_facts(s: Seq<char>, sp: Seq<(usize, usize)>, m: Map<Seq<char>, Seq<char>>, k: int)
    requires
        0 <= k <= sp.len(),
        expand_from(s, sp, m, k) is Ok,
    ensures
        forall|j: int| k <= j < sp.len() ==> #[trigger] token_fault(s, sp, m, j) is None,
        !has_invalid_topic_char(text_after(s, sp)),
    decreases sp.len() - k,
{
    if k < sp.len() {
        lemma_expand_ok_facts(s, sp, m, k + 1);
    }
}

/// In a pattern that `TopicPattern::new` accepts, every token names something that is not
/// blank, holds no invalid character and no `'/'`; no token directly follows another; and the
/// text around the tokens holds no invalid character.
pub proof fn law_accepted_pattern_tokens(
    pattern: Seq<char>,
    share_name: Option<Seq<char>>,
    namespace: Option<Seq<char>>,
    m: Map<Seq<char>, Seq<char>>,
)
    requires
        new_outcome(pattern, share_name, namespace, m) is Ok,
    ensures
        forall|k: int|
            #![trigger token_name(pattern, token_spans(pattern), k)]
            0 <= k < token_spans(pattern).len() ==> {
                let sp = token_spans(pattern);
                let name = token_name(pattern, sp, k);
                &&& !crate::topic_grammar::is_blank_text(name)
                &&& !has_invalid_topic_char(name)
                &&& !has_char(name, '/')
                &&& (k > 0 ==> sp[k - 1].1 != sp[k].0)
                &&& !has_invalid_topic_char(text_before(pattern, sp, k))
            },
        !has_invalid_topic_char(text_after(pattern, token_spans(pattern))),
{
    lemma_expand_ok_facts(pattern, token_spans(pattern), m, 0);
    let sp = token_spans(pattern);
    assert forall|k: int| 0 <= k < sp.len() implies {
        let name = #[trigger] token_name(pattern, sp, k);
        &&& !crate::topic_grammar::is_blank_text(name)
        &&& !has_invalid_topic_char(name)
        &&& !has_char(name, '/')
        &&& (k > 0 ==> sp[k - 1].1 != sp[k].0)
        &&& !has_invalid_topic_char(text_before(pattern, sp, k))
    } by {
        assert(token_fault(pattern, sp, m, k) is None);
    }
}

/// A valid replacement (or namespace) holds no invalid topic character.
pub proof fn law_valid_replacement_has_no_invalid_char(t: Seq<char>)
    requires
        is_valid_replacement_text(t),
    ensures
        !has_invalid_topic_char(t),
{
}

/// A pattern that `TopicPattern::new` accepts is not blank, does not start with `'$'`, has no
/// empty level, and has a valid share name and namespace where it has them; with a namespace,
/// the pattern after the initial replacements starts with the namespace and a `'/'`.
pub proof fn law_accepted_pattern_shape(
    pattern: Seq<char>,
    share_name: Option<Seq<char>>,
    namespace: Option<Seq<char>>,
    m: Map<Seq<char>, Seq<char>>,
)
    requires
        new_outcome(pattern, share_name, namespace, m) is Ok,
    ensures
        !crate::topic_grammar::is_blank_text(pattern),
        pattern[0] != '$',
        !crate::topic_grammar::has_empty_level(pattern),
        share_name is Some ==> !crate::topic_processor::is_invalid_share_name(share_name->Some_0),
        namespace is Some ==> is_valid_replacement_text(namespace->Some_0),
        namespace is Some ==> {
            let n = namespace->Some_0;
            let d = new_outcome(pattern, share_name, namespace, m)->Ok_0;
            &&& d.len() > n.len()
            &&& d.subrange(0, n.len() as int) == n
            &&& d[n.len() as int] == '/'
        },
{
    if namespace is Some {
        let n = namespace->Some_0;
        let d = new_outcome(pattern, share_name, namespace, m)->Ok_0;
        let rest = expand_from(pattern, token_spans(pattern), m, 0)->Ok_0;
        assert(d == n + seq!['/'] + rest);
        assert(d.subrange(0, n.len() as int) =~= n);
        assert(d[n.len() as int] == (n + seq!['/'] + rest)[n.len() as int]);
    }
}

/// Where no token is left in the pattern (all were replaced when it was made, or it had
/// none), its publish topic is the pattern itself, whatever the replacement map.
pub proof fn law_publish_without_tokens(v: TopicPatternView, m: Map<Seq<char>, Seq<char>>)
    requires
        forall|p: int| !#[trigger] starts_token(v.dynamic_pattern, p),
    ensures
        publish_outcome(v, m) == Ok::<Seq<char>, (Seq<char>, Seq<char>)>(v.dynamic_pattern),
{
    let d = v.dynamic_pattern;
    let none = Seq::<(usize, usize)>::empty();
    assert(are_token_spans(d, none)) by {
        reveal(are_token_spans);
    }
    crate::topic_grammar::lemma_token_spans_are(d, none);
    assert(d.subrange(0, d.len() as int) =~= d);
}

} // verus!
