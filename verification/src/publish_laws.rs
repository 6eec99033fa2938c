//! Publish topics are concrete topics: whatever the pattern and the values, a publish topic
//! that is made holds no invalid topic character (no wildcard, no brace, nothing outside
//! `'!'..='~'`); the only such character of a subscribe topic is the wildcard `'+'`; and a
//! publish topic matches the subscribe topic of its pattern.

use vstd::prelude::*;

use crate::topic_grammar::{
    are_token_spans, has_char, has_invalid_topic_char, is_invalid_topic_char, is_token_span, is_valid_replacement_text,
    search_from, tail_start, token_spans,
};
use crate::topic_laws::{
    lemma_next_close, lemma_next_close_at, lemma_next_close_shift, lemma_token_spans_exist, next_close, scan_tokens,
    token_begins,
};
use crate::topic_processor::{
    expand_from, lemma_span_facts, lemma_tail_facts, new_outcome, publish_from, publish_outcome, text_after,
    text_before, token_expansion, token_fault, token_name, PatternFault, TopicPatternView,
};
use crate::topic_regex::{replace_spans, replace_tokens};

verus! {

/// Every character of `s` from `p` on that the token scan does not take into a token is a
/// valid topic character.
pub open spec fn gaps_clean(s: Seq<char>, p: int) -> bool
    decreases s.len() - p,
{
    if p < 0 || p >= s.len() {
        true
    } else if token_begins(s, p) {
        proof {
            lemma_next_close(s, p + 1);
        }
        gaps_clean(s, next_close(s, p + 1) + 1)
    } else {
        !is_invalid_topic_char(s[p]) && gaps_clean(s, p + 1)
    }
}

/// Past `a`, the scan of `a + r` sees what the scan of `r` sees.
proof fn lemma_gaps_clean_shift(a: Seq<char>, r: Seq<char>, q: int)
    requires
        0 <= q <= r.len(),
    ensures
        gaps_clean(a + r, a.len() + q) == gaps_clean(r, q),
    decreases r.len() - q,
{
    let s = a + r;
    let p = a.len() + q;
    if q < r.len() {
        assert(s[p] == r[q]);
        if q + 1 < r.len() {
            assert(s[p + 1] == r[q + 1]);
        }
        lemma_next_close_shift(a, r, q + 1);
        assert(token_begins(s, p) == token_begins(r, q));
        if token_begins(r, q) {
            lemma_next_close(r, q + 1);
            lemma_gaps_clean_shift(a, r, next_close(r, q + 1) + 1);
        } else {
            lemma_gaps_clean_shift(a, r, q + 1);
        }
    }
}

/// A text without invalid characters holds no token start, so the scan of `c + r` passes
/// over it.
proof fn lemma_gaps_clean_clean_prefix(c: Seq<char>, r: Seq<char>, p: int)
    requires
        !has_invalid_topic_char(c),
        0 <= p <= c.len(),
    ensures
        gaps_clean(c + r, p) == gaps_clean(r, 0),
    decreases c.len() - p,
{
    let s = c + r;
    if p < c.len() {
        assert(s[p] == c[p]);
        assert(!is_invalid_topic_char(c[p]));
        assert(!token_begins(s, p));
        lemma_gaps_clean_clean_prefix(c, r, p + 1);
    } else {
        lemma_gaps_clean_shift(c, r, 0);
    }
}

/// The scan of a token `{name}` followed by `r` takes the token whole and goes on with `r`.
proof fn lemma_gaps_clean_token_prefix(name: Seq<char>, r: Seq<char>)
    requires
        name.len() > 0,
        !has_invalid_topic_char(name),
    ensures
        gaps_clean(seq!['{'] + name + seq!['}'] + r, 0) == gaps_clean(r, 0),
{
    let t = seq!['{'] + name + seq!['}'];
    let s = t + r;
    let n = name.len() as int;
    assert(s[0] == '{');
    assert(s[1] == name[0]);
    assert(!is_invalid_topic_char(name[0]));
    assert(s[n + 1] == '}');
    assert forall|k: int| 1 <= k < n + 1 implies #[trigger] s[k] != '}' by {
        assert(s[k] == name[k - 1]);
        assert(!is_invalid_topic_char(name[k - 1]));
    }
    lemma_next_close_at(s, 1, n + 1);
    assert(token_begins(s, 0));
    lemma_next_close(s, 1);
    assert(t.len() == n + 2);
    lemma_gaps_clean_shift(t, r, 0);
}

/// A pattern expanded from its `k`-th token on has clean gaps.
proof fn lemma_expansion_gaps_clean(s: Seq<char>, sp: Seq<(usize, usize)>, m: Map<Seq<char>, Seq<char>>, k: int)
    requires
        are_token_spans(s, sp),
        0 <= k <= sp.len(),
        expand_from(s, sp, m, k) is Ok,
    ensures
        gaps_clean(expand_from(s, sp, m, k)->Ok_0, 0),
    decreases sp.len() - k,
{
    if k == sp.len() {
        let c = text_after(s, sp);
        assert(c + Seq::<char>::empty() =~= c);
        lemma_gaps_clean_clean_prefix(c, Seq::<char>::empty(), 0);
    } else {
        lemma_span_facts(s, sp, k);
        lemma_expansion_gaps_clean(s, sp, m, k + 1);
        let rest = expand_from(s, sp, m, k + 1)->Ok_0;
        let before = text_before(s, sp, k);
        let name = token_name(s, sp, k);
        assert(token_fault(s, sp, m, k) is None);
        assert(name.len() > 0) by {
            if name.len() == 0 {
                assert(crate::topic_grammar::is_blank_text(name));
            }
        }
        if m.contains_key(name) {
            let c = before + m[name];
            assert(is_valid_replacement_text(m[name]));
            assert(!has_invalid_topic_char(c)) by {
                if has_invalid_topic_char(c) {
                    let i = choose|i: int| 0 <= i < c.len() && is_invalid_topic_char(#[trigger] c[i]);
                    if i < before.len() {
                        assert(c[i] == before[i]);
                    } else {
                        assert(c[i] == m[name][i - before.len()]);
                    }
                }
            }
            assert(token_expansion(s, sp, m, k) == c);
            lemma_gaps_clean_clean_prefix(c, rest, 0);
        } else {
            let st = sp[k].0 as int;
            let en = sp[k].1 as int;
            let tok = seq!['{'] + name + seq!['}'];
            assert(s.subrange(st, en) =~= tok);
            assert(token_expansion(s, sp, m, k) == before + tok);
            assert((before + tok) + rest =~= before + (tok + rest));
            lemma_gaps_clean_clean_prefix(before, tok + rest, 0);
            lemma_gaps_clean_token_prefix(name, rest);
        }
    }
}

/// Where a scan from `k` starts looking for the `k`-th token, starting at `p`.
pub open spec fn scan_gap_start(spans: Seq<(usize, usize)>, k: int, p: int) -> int {
    if k <= 0 {
        p
    } else {
        spans[k - 1].1 as int
    }
}

/// Clean gaps mean that every character outside the scanned tokens is valid.
proof fn lemma_gaps_clean_pointwise(s: Seq<char>, p: int)
    requires
        0 <= p <= s.len(),
        s.len() <= usize::MAX,
        gaps_clean(s, p),
    ensures
        forall|k: int, i: int|
            #![trigger scan_tokens(s, p)[k], s[i]]
            0 <= k < scan_tokens(s, p).len() && scan_gap_start(scan_tokens(s, p), k, p) <= i < scan_tokens(s, p)[k].0
                ==> !is_invalid_topic_char(s[i]),
        forall|i: int|
            scan_gap_start(scan_tokens(s, p), scan_tokens(s, p).len() as int, p) <= i < s.len()
                ==> !is_invalid_topic_char(#[trigger] s[i]),
    decreases s.len() - p,
{
    let sp = scan_tokens(s, p);
    if p == s.len() {
        assert(sp.len() == 0);
    } else if token_begins(s, p) {
        lemma_next_close(s, p + 1);
        let e = next_close(s, p + 1) + 1;
        lemma_gaps_clean_pointwise(s, e);
        let r = scan_tokens(s, e);
        assert(sp == seq![(p as usize, e as usize)] + r);
        assert forall|k: int, i: int|
            #![trigger sp[k], s[i]]
            0 <= k < sp.len() && scan_gap_start(sp, k, p) <= i < sp[k].0 implies !is_invalid_topic_char(s[i]) by {
            if k > 0 {
                assert(sp[k] == r[k - 1]);
                if k > 1 {
                    assert(sp[k - 1] == r[k - 2]);
                }
                assert(scan_gap_start(sp, k, p) == scan_gap_start(r, k - 1, e));
                assert(r[k - 1] == sp[k]);
            }
        }
        assert forall|i: int| scan_gap_start(sp, sp.len() as int, p) <= i < s.len() implies !is_invalid_topic_char(
            #[trigger] s[i],
        ) by {
            if r.len() > 0 {
                assert(sp[sp.len() - 1] == r[r.len() - 1]);
            }
            assert(scan_gap_start(sp, sp.len() as int, p) == scan_gap_start(r, r.len() as int, e));
        }
    } else {
        lemma_gaps_clean_pointwise(s, p + 1);
        assert(sp == scan_tokens(s, p + 1));
    }
}

/// A publish topic made from a pattern with clean gaps holds no invalid character.
proof fn lemma_publish_clean(d: Seq<char>, sp: Seq<(usize, usize)>, m: Map<Seq<char>, Seq<char>>, k: int)
    requires
        are_token_spans(d, sp),
        sp == scan_tokens(d, 0),
        0 <= k <= sp.len(),
        d.len() <= usize::MAX,
        gaps_clean(d, 0),
        publish_from(d, sp, m, k) is Ok,
    ensures
        !has_invalid_topic_char(publish_from(d, sp, m, k)->Ok_0),
    decreases sp.len() - k,
{
    lemma_gaps_clean_pointwise(d, 0);
    if k == sp.len() {
        lemma_tail_facts(d, sp);
        let t = text_after(d, sp);
        assert(tail_start(sp) == scan_gap_start(sp, sp.len() as int, 0));
        assert forall|i: int| 0 <= i < t.len() implies !is_invalid_topic_char(#[trigger] t[i]) by {
            assert(t[i] == d[tail_start(sp) + i]);
        }
    } else {
        lemma_span_facts(d, sp, k);
        lemma_publish_clean(d, sp, m, k + 1);
        let name = token_name(d, sp, k);
        let before = text_before(d, sp, k);
        let v = m[name];
        let rest = publish_from(d, sp, m, k + 1)->Ok_0;
        let out = before + v + rest;
        assert(publish_from(d, sp, m, k)->Ok_0 == out);
        assert(search_from(sp, k) == scan_gap_start(sp, k, 0));
        assert(!has_invalid_topic_char(v));
        assert forall|i: int| 0 <= i < out.len() implies !is_invalid_topic_char(#[trigger] out[i]) by {
            if i < before.len() {
                assert(out[i] == before[i]);
                assert(before[i] == d[search_from(sp, k) + i]);
            } else if i < before.len() + v.len() {
                assert(out[i] == v[i - before.len()]);
            } else {
                assert(out[i] == rest[i - before.len() - v.len()]);
            }
        }
    }
}

/// The pattern that `TopicPattern::new` makes has clean gaps.
proof fn lemma_dynamic_pattern_gaps_clean(
    pattern: Seq<char>,
    share_name: Option<Seq<char>>,
    namespace: Option<Seq<char>>,
    initial: Map<Seq<char>, Seq<char>>,
)
    requires
        new_outcome(pattern, share_name, namespace, initial) is Ok,
        pattern.len() <= usize::MAX,
    ensures
        gaps_clean(new_outcome(pattern, share_name, namespace, initial)->Ok_0, 0),
{
    let d = new_outcome(pattern, share_name, namespace, initial)->Ok_0;
    lemma_token_spans_exist(pattern);
    let ssp = token_spans(pattern);
    lemma_expansion_gaps_clean(pattern, ssp, initial, 0);
    let e = expand_from(pattern, ssp, initial, 0)->Ok_0;
    match namespace {
        Some(n) => {
            let pre = n + seq!['/'];
            assert(d == pre + e);
            assert(!has_invalid_topic_char(pre)) by {
                if has_invalid_topic_char(pre) {
                    let i = choose|i: int| 0 <= i < pre.len() && is_invalid_topic_char(#[trigger] pre[i]);
                    if i < n.len() {
                        assert(pre[i] == n[i]);
                    }
                }
            }
            lemma_gaps_clean_clean_prefix(pre, e, 0);
        },
        None => {
            assert(d == Seq::<char>::empty() + e);
            assert(Seq::<char>::empty() + e =~= e);
        },
    }
    assert(gaps_clean(d, 0));
}

/// The topic pattern that `TopicPattern::new` makes of its arguments, where it accepts them.
pub open spec fn made_pattern(
    pattern: Seq<char>,
    share_name: Option<Seq<char>>,
    namespace: Option<Seq<char>>,
    initial: Map<Seq<char>, Seq<char>>,
) -> TopicPatternView {
    TopicPatternView {
        static_pattern: pattern,
        dynamic_pattern: new_outcome(pattern, share_name, namespace, initial)->Ok_0,
        share_name,
        namespace,
    }
}

/// A publish topic holds no invalid topic character: no `'+'`, `'#'`, `'{'` or `'}'`, and
/// nothing outside `'!'..='~'`. This holds of every pattern that `TopicPattern::new`
/// accepts, with any share name, namespace and initial replacements, and of every value map
/// for which the publish topic is made.
pub proof fn law_publish_topic_is_concrete(
    pattern: Seq<char>,
    share_name: Option<Seq<char>>,
    namespace: Option<Seq<char>>,
    initial: Map<Seq<char>, Seq<char>>,
    values: Map<Seq<char>, Seq<char>>,
)
    requires
        new_outcome(pattern, share_name, namespace, initial) is Ok,
        pattern.len() <= usize::MAX,
        new_outcome(pattern, share_name, namespace, initial)->Ok_0.len() <= usize::MAX,
        publish_outcome(
            made_pattern(pattern, share_name, namespace, initial),
            values,
        ) is Ok,
    ensures
        !has_invalid_topic_char(
            publish_outcome(
                made_pattern(pattern, share_name, namespace, initial),
                values,
            )->Ok_0,
        ),
{
    let d = new_outcome(pattern, share_name, namespace, initial)->Ok_0;
    lemma_dynamic_pattern_gaps_clean(pattern, share_name, namespace, initial);
    lemma_token_spans_exist(d);
    lemma_publish_clean(d, token_spans(d), values, 0);
}

/// With clean gaps, the tokens replaced by the wildcard leave the wildcard as the only invalid
/// character.
proof fn lemma_wildcards_only(d: Seq<char>, sp: Seq<(usize, usize)>, k: int)
    requires
        are_token_spans(d, sp),
        sp == scan_tokens(d, 0),
        0 <= k <= sp.len(),
        d.len() <= usize::MAX,
        gaps_clean(d, 0),
        "+"@ == seq!['+'],
    ensures
        forall|i: int|
            0 <= i < replace_spans(d, sp, k, "+"@).len() && is_invalid_topic_char(
                #[trigger] replace_spans(d, sp, k, "+"@)[i],
            ) ==> replace_spans(d, sp, k, "+"@)[i] == '+',
    decreases sp.len() - k,
{
    lemma_gaps_clean_pointwise(d, 0);
    let out = replace_spans(d, sp, k, "+"@);
    if k == sp.len() {
        lemma_tail_facts(d, sp);
        assert(tail_start(sp) == scan_gap_start(sp, sp.len() as int, 0));
        assert forall|i: int| 0 <= i < out.len() implies !is_invalid_topic_char(#[trigger] out[i]) by {
            assert(out[i] == d[tail_start(sp) + i]);
        }
    } else {
        lemma_span_facts(d, sp, k);
        lemma_wildcards_only(d, sp, k + 1);
        let before = d.subrange(search_from(sp, k), sp[k].0 as int);
        let rest = replace_spans(d, sp, k + 1, "+"@);
        assert(out == before + seq!['+'] + rest);
        assert(search_from(sp, k) == scan_gap_start(sp, k, 0));
        assert forall|i: int| 0 <= i < out.len() && is_invalid_topic_char(#[trigger] out[i]) implies out[i] == '+' by {
            if i < before.len() {
                assert(out[i] == d[search_from(sp, k) + i]);
            } else if i > before.len() {
                assert(out[i] == rest[i - before.len() - 1]);
            }
        }
    }
}

/// The only invalid topic character of a subscribe topic, past the share prefix, is the
/// wildcard `'+'` that stands for each token: no brace and no `'#'` is left. This holds of
/// every pattern that `TopicPattern::new` accepts, with any share name, namespace and
/// initial replacements.
pub proof fn law_subscribe_topic_holds_only_wildcards(
    pattern: Seq<char>,
    share_name: Option<Seq<char>>,
    namespace: Option<Seq<char>>,
    initial: Map<Seq<char>, Seq<char>>,
)
    requires
        new_outcome(pattern, share_name, namespace, initial) is Ok,
        pattern.len() <= usize::MAX,
        new_outcome(pattern, share_name, namespace, initial)->Ok_0.len() <= usize::MAX,
    ensures
        forall|i: int|
            0 <= i < replace_tokens(new_outcome(pattern, share_name, namespace, initial)->Ok_0, "+"@).len()
                && is_invalid_topic_char(
                #[trigger] replace_tokens(new_outcome(pattern, share_name, namespace, initial)->Ok_0, "+"@)[i],
            ) ==> replace_tokens(new_outcome(pattern, share_name, namespace, initial)->Ok_0, "+"@)[i] == '+',
{
    reveal_strlit("+");
    assert("+"@ =~= seq!['+']);
    let d = new_outcome(pattern, share_name, namespace, initial)->Ok_0;
    lemma_dynamic_pattern_gaps_clean(pattern, share_name, namespace, initial);
    lemma_token_spans_exist(d);
    lemma_wildcards_only(d, token_spans(d), 0);
}

/// The topic `t` matches the topic filter `f`, where each `'+'` of the filter stands for one
/// topic level: any text without `'/'`.
pub open spec fn filter_matches(f: Seq<char>, t: Seq<char>) -> bool
    decreases f.len(),
{
    if f.len() == 0 {
        t.len() == 0
    } else if f[0] == '+' {
        exists|j: int|
            0 <= j <= t.len() && !has_char(#[trigger] t.subrange(0, j), '/') && filter_matches(
                f.drop_first(),
                t.subrange(j, t.len() as int),
            )
    } else {
        t.len() > 0 && t[0] == f[0] && filter_matches(f.drop_first(), t.drop_first())
    }
}

/// A common prefix without wildcards matches itself.
proof fn lemma_matches_common_prefix(x: Seq<char>, f: Seq<char>, t: Seq<char>)
    requires
        !has_char(x, '+'),
    ensures
        filter_matches(x + f, x + t) == filter_matches(f, t),
    decreases x.len(),
{
    if x.len() > 0 {
        let y = x.drop_first();
        assert(!has_char(y, '+')) by {
            if has_char(y, '+') {
                let i = choose|i: int| 0 <= i < y.len() && #[trigger] y[i] == '+';
                assert(x[i + 1] == '+');
            }
        }
        lemma_matches_common_prefix(y, f, t);
        assert(x[0] != '+');
        assert((x + f)[0] == x[0]);
        assert((x + t)[0] == x[0]);
        assert((x + f).drop_first() =~= y + f);
        assert((x + t).drop_first() =~= y + t);
    } else {
        assert(x + f =~= f);
        assert(x + t =~= t);
    }
}

/// A wildcard matches a level.
proof fn lemma_matches_wildcard(v: Seq<char>, f: Seq<char>, t: Seq<char>)
    requires
        !has_char(v, '/'),
        filter_matches(f, t),
    ensures
        filter_matches(seq!['+'] + f, v + t),
{
    let g = seq!['+'] + f;
    let u = v + t;
    assert(g[0] == '+');
    assert(g.drop_first() =~= f);
    let j = v.len() as int;
    assert(u.subrange(0, j) =~= v);
    assert(u.subrange(j, u.len() as int) =~= t);
}

/// Every value that the publish topic takes for a token of `d` is one topic level.
pub open spec fn values_are_levels(d: Seq<char>, m: Map<Seq<char>, Seq<char>>) -> bool {
    let sp = token_spans(d);
    forall|k: int| 0 <= k < sp.len() ==> !has_char(m[#[trigger] token_name(d, sp, k)], '/')
}

/// With clean gaps, the publish topic from the `k`-th token on matches the pattern with its
/// tokens from there on replaced by wildcards.
proof fn lemma_publish_matches(d: Seq<char>, sp: Seq<(usize, usize)>, m: Map<Seq<char>, Seq<char>>, k: int)
    requires
        are_token_spans(d, sp),
        sp == scan_tokens(d, 0),
        0 <= k <= sp.len(),
        d.len() <= usize::MAX,
        gaps_clean(d, 0),
        publish_from(d, sp, m, k) is Ok,
        forall|j: int| 0 <= j < sp.len() ==> !has_char(m[#[trigger] token_name(d, sp, j)], '/'),
        "+"@ == seq!['+'],
    ensures
        filter_matches(replace_spans(d, sp, k, "+"@), publish_from(d, sp, m, k)->Ok_0),
    decreases sp.len() - k,
{
    lemma_gaps_clean_pointwise(d, 0);
    if k == sp.len() {
        lemma_tail_facts(d, sp);
        let x = text_after(d, sp);
        assert(tail_start(sp) == scan_gap_start(sp, sp.len() as int, 0));
        assert(!has_char(x, '+')) by {
            if has_char(x, '+') {
                let i = choose|i: int| 0 <= i < x.len() && #[trigger] x[i] == '+';
                assert(x[i] == d[tail_start(sp) + i]);
            }
        }
        let empty = Seq::<char>::empty();
        lemma_matches_common_prefix(x, empty, empty);
        assert(x + empty =~= x);
        assert(replace_spans(d, sp, k, "+"@) == x);
    } else {
        lemma_span_facts(d, sp, k);
        lemma_publish_matches(d, sp, m, k + 1);
        let tb = text_before(d, sp, k);
        let name = token_name(d, sp, k);
        let v = m[name];
        let f1 = replace_spans(d, sp, k + 1, "+"@);
        let t1 = publish_from(d, sp, m, k + 1)->Ok_0;
        assert(search_from(sp, k) == scan_gap_start(sp, k, 0));
        assert(!has_char(tb, '+')) by {
            if has_char(tb, '+') {
                let i = choose|i: int| 0 <= i < tb.len() && #[trigger] tb[i] == '+';
                assert(tb[i] == d[search_from(sp, k) + i]);
            }
        }
        assert(replace_spans(d, sp, k, "+"@) =~= tb + (seq!['+'] + f1));
        assert(publish_from(d, sp, m, k)->Ok_0 =~= tb + (v + t1));
        lemma_matches_wildcard(v, f1, t1);
        lemma_matches_common_prefix(tb, seq!['+'] + f1, v + t1);
    }
}

/// A publish topic matches the subscribe topic of its pattern (the subscribe topic past its
/// `$share/<share name>/` prefix, where the pattern has a share name): each token of the
/// pattern is replaced by a wildcard in the one and by a value in the other. This holds of
/// every pattern that `TopicPattern::new` accepts, with any share name, namespace and initial
/// replacements, and of every value map for which the publish topic is made and whose values
/// for the pattern's tokens are single levels (hold no `'/'`).
pub proof fn law_publish_topic_matches_subscribe_topic(
    pattern: Seq<char>,
    share_name: Option<Seq<char>>,
    namespace: Option<Seq<char>>,
    initial: Map<Seq<char>, Seq<char>>,
    values: Map<Seq<char>, Seq<char>>,
)
    requires
        new_outcome(pattern, share_name, namespace, initial) is Ok,
        pattern.len() <= usize::MAX,
        new_outcome(pattern, share_name, namespace, initial)->Ok_0.len() <= usize::MAX,
        publish_outcome(made_pattern(pattern, share_name, namespace, initial), values) is Ok,
        values_are_levels(new_outcome(pattern, share_name, namespace, initial)->Ok_0, values),
    ensures
        filter_matches(
            replace_tokens(new_outcome(pattern, share_name, namespace, initial)->Ok_0, "+"@),
            publish_outcome(made_pattern(pattern, share_name, namespace, initial), values)->Ok_0,
        ),
{
    reveal_strlit("+");
    assert("+"@ =~= seq!['+']);
    let d = new_outcome(pattern, share_name, namespace, initial)->Ok_0;
    lemma_dynamic_pattern_gaps_clean(pattern, share_name, namespace, initial);
    lemma_token_spans_exist(d);
    lemma_publish_matches(d, token_spans(d), values, 0);
}

} // verus!
