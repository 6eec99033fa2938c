//! Topic patterns for Azure IoT Operations protocol topics: validation, token replacement,
//! subscribe and publish topics, and parsing of token values out of a topic.

use vstd::prelude::*;
use vstd::string::StringSliceAdditionalSpecFns;
use vstd::utf8::{
    decode_utf8, encode_utf8, encode_utf8_decode_utf8, encode_utf8_valid_utf8, is_char_boundary,
    is_char_boundary_iff_not_is_continuation_byte, is_char_boundary_start_end_of_seq,
    pop_first_scalar, valid_utf8, valid_utf8_split,
};

use crate::text::{byte_len_upto, chars_of};
use crate::token_map::TokenMap;
use crate::topic_grammar::{
    are_token_spans, has_char, has_double_slash, has_empty_level, has_invalid_topic_char,
    is_blank_text, is_invalid_topic_char, is_token_span, is_valid_replacement_text,
    is_white_space, lemma_token_spans_are, search_from, tail_start, token_spans,
    white_space_between,
};
use crate::topic_regex::{
    find_token_spans, regex_is_match, regex_replace_all, replace_tokens, EMPTY_LEVEL_REGEX, INVALID_CHAR_REGEX, TOKEN_REGEX,
};

verus! {

/// Wildcard token
pub const WILDCARD: &'static str = "+";

// ---------------------------------------------------------------------------------------
// Errors
// ---------------------------------------------------------------------------------------

/// Represents the kind of error that occurred when creating a [`TopicPattern`]
#[derive(Debug, Clone)]
pub enum TopicPatternErrorKind {
    /// The topic pattern is invalid
    Pattern(String),
    /// The share name is invalid
    ShareName(String),
    /// The topic namespace is invalid
    Namespace(String),
    /// Could not replace a token in the topic pattern
    TokenReplacement(String, String),
}

/// The kind of a topic pattern error, with its texts as character sequences.
pub enum ErrorKindView {
    Pattern(Seq<char>),
    ShareName(Seq<char>),
    Namespace(Seq<char>),
    TokenReplacement(Seq<char>, Seq<char>),
}

impl View for TopicPatternErrorKind {
    type V = ErrorKindView;

    open spec fn view(&self) -> ErrorKindView {
        match self {
            TopicPatternErrorKind::Pattern(p) => ErrorKindView::Pattern(p@),
            TopicPatternErrorKind::ShareName(s) => ErrorKindView::ShareName(s@),
            TopicPatternErrorKind::Namespace(n) => ErrorKindView::Namespace(n@),
            TopicPatternErrorKind::TokenReplacement(t, v) => ErrorKindView::TokenReplacement(t@, v@),
        }
    }
}

/// The text that describes an error kind.
pub open spec fn kind_text(k: ErrorKindView) -> Seq<char> {
    match k {
        ErrorKindView::Pattern(_) => "Topic pattern is invalid"@,
        ErrorKindView::ShareName(s) => "Share name '"@ + s + "' is invalid"@,
        ErrorKindView::Namespace(n) => "Topic namespace '"@ + n + "' is invalid"@,
        ErrorKindView::TokenReplacement(t, v) => "Token '"@ + t + "' replacement value '"@ + v
            + "' is invalid"@,
    }
}

/// The text that describes an error.
pub open spec fn error_text(e: (ErrorKindView, Option<Seq<char>>)) -> Seq<char> {
    match e.1 {
        Some(m) => kind_text(e.0) + " - "@ + m + kind_text(e.0),
        None => kind_text(e.0),
    }
}

impl TopicPatternErrorKind {
    /// The text that describes the error kind.
    pub fn to_string(&self) -> (r: String)
        ensures
            r@ == kind_text(self@),
    {
        match self {
            TopicPatternErrorKind::Pattern(_) => String::from_str("Topic pattern is invalid"),
            TopicPatternErrorKind::ShareName(s) => {
                let mut text = String::from_str("Share name '");
                text.append(s.as_str());
                text.append("' is invalid");
                text
            },
            TopicPatternErrorKind::Namespace(n) => {
                let mut text = String::from_str("Topic namespace '");
                text.append(n.as_str());
                text.append("' is invalid");
                text
            },
            TopicPatternErrorKind::TokenReplacement(t, v) => {
                let mut text = String::from_str("Token '");
                text.append(t.as_str());
                text.append("' replacement value '");
                text.append(v.as_str());
                text.append("' is invalid");
                text
            },
        }
    }
}

/// Represents an error that occurred when creating a [`TopicPattern`]
#[derive(Debug, Clone)]
pub struct TopicPatternError {
    msg: Option<String>,
    kind: TopicPatternErrorKind,
}

/// The text of an optional string.
pub open spec fn opt_text(o: Option<String>) -> Option<Seq<char>> {
    match o {
        Some(s) => Some(s@),
        None => None,
    }
}

/// The text of an optional string slice.
pub open spec fn opt_str_text(o: Option<&str>) -> Option<Seq<char>> {
    match o {
        Some(s) => Some(s@),
        None => None,
    }
}

impl View for TopicPatternError {
    type V = (ErrorKindView, Option<Seq<char>>);

    closed spec fn view(&self) -> (ErrorKindView, Option<Seq<char>>) {
        (self.kind@, opt_text(self.msg))
    }
}

impl TopicPatternError {
    /// Get the kind of error that occurred when creating a [`TopicPattern`]
    pub fn kind(&self) -> (k: &TopicPatternErrorKind)
        ensures
            k@ == self@.0,
    {
        &self.kind
    }

    /// The detail message of the error, where it has one.
    pub fn msg(&self) -> (m: Option<&String>)
        ensures
            match m {
                Some(s) => self@.1 == Some(s@),
                None => self@.1 is None,
            },
    {
        match &self.msg {
            Some(s) => Some(s),
            None => None,
        }
    }

    /// An error of the given kind, with the given detail message.
    pub fn from_parts(msg: Option<String>, kind: TopicPatternErrorKind) -> (e: TopicPatternError)
        ensures
            e@ == (kind@, opt_text(msg)),
    {
        TopicPatternError { msg, kind }
    }

    /// The text that describes the error: the kind's text, and where the error has a detail
    /// message, first the kind's text, `" - "` and the message, then the kind's text again.
    pub fn to_string(&self) -> (r: String)
        ensures
            r@ == error_text(self@),
    {
        let kind_text = self.kind.to_string();
        match &self.msg {
            Some(m) => {
                let mut text = kind_text.clone();
                text.append(" - ");
                text.append(m.as_str());
                text.append(kind_text.as_str());
                text
            },
            None => kind_text,
        }
    }

    fn of_pattern(pattern: &str, msg: &str) -> (e: TopicPatternError)
        ensures
            e@ == (ErrorKindView::Pattern(pattern@), Some(msg@)),
    {
        TopicPatternError {
            msg: Some(msg.to_owned()),
            kind: TopicPatternErrorKind::Pattern(pattern.to_owned()),
        }
    }

    fn of_kind(kind: TopicPatternErrorKind) -> (e: TopicPatternError)
        ensures
            e@ == (kind@, None::<Seq<char>>),
    {
        TopicPatternError { msg: None, kind }
    }
}

// ---------------------------------------------------------------------------------------
// Character checks
// ---------------------------------------------------------------------------------------

fn is_invalid_char(c: char) -> (r: bool)
    ensures
        r == is_invalid_topic_char(c),
{
    !('!' <= c && c <= '~') || c == '+' || c == '#' || c == '{' || c == '}'
}

/// Whether `c` is a Unicode `White_Space` character.
pub fn is_white_space_char(c: char) -> (r: bool)
    ensures
        r == is_white_space(c),
{
    ('\u{9}' <= c && c <= '\u{d}') || c == ' ' || c == '\u{85}' || c == '\u{a0}' || c == '\u{1680}'
        || ('\u{2000}' <= c && c <= '\u{200a}') || c == '\u{2028}' || c == '\u{2029}' || c
        == '\u{202f}' || c == '\u{205f}' || c == '\u{3000}'
}

/// Whether `s` is empty once trimmed of white space.
pub fn is_blank(s: &str) -> (r: bool)
    ensures
        r == is_blank_text(s@),
{
    let v = chars_of(s);
    let mut i: usize = 0;
    while i < v.len()
        invariant
            v@ == s@,
            i <= v@.len(),
            white_space_between(s@, 0, i as int),
        decreases v@.len() - i,
    {
        if !is_white_space_char(v[i]) {
            return false;
        }
        i = i + 1;
    }
    true
}

/// Whether `s` holds the character `c`.
pub fn contains_char(s: &str, c: char) -> (r: bool)
    ensures
        r == has_char(s@, c),
{
    let v = chars_of(s);
    let mut i: usize = 0;
    while i < v.len()
        invariant
            v@ == s@,
            i <= v@.len(),
            forall|k: int| 0 <= k < i ==> s@[k] != c,
        decreases v@.len() - i,
    {
        if v[i] == c {
            return true;
        }
        i = i + 1;
    }
    false
}

/// Check if a string contains invalid characters specified in topic-structure.md
///
/// Returns true if the string contains any of the following:
/// - Non-ASCII characters
/// - Characters outside the range of '!' to '~'
/// - Characters '+', '#', '{', '}'
pub fn contains_invalid_char(s: &str) -> (r: bool)
    ensures
        r == has_invalid_topic_char(s@),
{
    let v = chars_of(s);
    let mut i: usize = 0;
    while i < v.len()
        invariant
            v@ == s@,
            i <= v@.len(),
            forall|k: int| 0 <= k < i ==> !is_invalid_topic_char(#[trigger] s@[k]),
        decreases v@.len() - i,
    {
        if is_invalid_char(v[i]) {
            return true;
        }
        i = i + 1;
    }
    false
}

/// Determine whether a string is valid for use as a replacement string in a custom
/// replacement map or a topic namespace based on topic-structure.md
///
/// Returns true if the string is not empty, does not contain invalid characters, does not
/// start or end with '/', and does not contain "//"
pub fn is_valid_replacement(s: &str) -> (r: bool)
    ensures
        r == is_valid_replacement_text(s@),
{
    let v = chars_of(s);
    if v.len() == 0 || contains_invalid_char(s) {
        return false;
    }
    if v[0] == '/' || v[v.len() - 1] == '/' {
        return false;
    }
    let mut i: usize = 0;
    let last = v.len() - 1;
    while i < last
        invariant
            v@ == s@,
            v@.len() > 0,
            last == v@.len() - 1,
            i <= last,
            forall|k: int| 0 <= k < i ==> !(#[trigger] s@[k] == '/' && s@[k + 1] == '/'),
        decreases v@.len() - i,
    {
        if v[i] == '/' && v[i + 1] == '/' {
            return false;
        }
        i = i + 1;
    }
    true
}


// ---------------------------------------------------------------------------------------
// What a pattern is checked for, and what it expands to
// ---------------------------------------------------------------------------------------

/// What makes `TopicPattern::new` refuse its arguments.
pub enum PatternFault {
    /// The pattern is empty or white space only.
    Blank,
    /// The pattern starts with `'$'`.
    DollarPrefix,
    /// The share name is blank, holds an invalid character, or holds `'/'`.
    ShareName,
    /// The pattern has an empty level.
    EmptyLevel,
    /// The namespace is not a valid replacement text.
    Namespace,
    /// A token name is white space only.
    EmptyToken,
    /// A token directly follows another one.
    AdjacentTokens,
    /// The text before a token, or after the last one, holds an invalid character.
    InvalidCharacters,
    /// The token name holds an invalid character or `'/'`.
    InvalidToken(Seq<char>),
    /// The map's value for the token name is not a valid replacement.
    Replacement(Seq<char>, Seq<char>),
}

/// The error that `TopicPattern::new` reports for a fault.
pub open spec fn fault_error(
    f: PatternFault,
    pattern: Seq<char>,
    share_name: Option<Seq<char>>,
    namespace: Option<Seq<char>>,
) -> (ErrorKindView, Option<Seq<char>>) {
    match f {
        PatternFault::Blank => (ErrorKindView::Pattern(pattern), Some("Pattern is empty"@)),
        PatternFault::DollarPrefix => (
            ErrorKindView::Pattern(pattern),
            Some("Pattern must not start with '$'"@),
        ),
        PatternFault::ShareName => (ErrorKindView::ShareName(share_name.unwrap()), None),
        PatternFault::EmptyLevel => (ErrorKindView::Pattern(pattern), Some("Contains empty level(s)"@)),
        PatternFault::Namespace => (ErrorKindView::Namespace(namespace.unwrap()), None),
        PatternFault::EmptyToken => (ErrorKindView::Pattern(pattern), Some("Contains empty token"@)),
        PatternFault::AdjacentTokens => (
            ErrorKindView::Pattern(pattern),
            Some("Contains adjacent tokens"@),
        ),
        PatternFault::InvalidCharacters => (
            ErrorKindView::Pattern(pattern),
            Some("Contains invalid characters"@),
        ),
        PatternFault::InvalidToken(name) => (
            ErrorKindView::Pattern(pattern),
            Some("Contains invalid characters in token "@ + name),
        ),
        PatternFault::Replacement(name, value) => (ErrorKindView::TokenReplacement(name, value), None),
    }
}

/// The name of the `k`-th token: its text without the braces.
pub open spec fn token_name(s: Seq<char>, spans: Seq<(usize, usize)>, k: int) -> Seq<char> {
    s.subrange(spans[k].0 + 1, spans[k].1 - 1)
}

/// The text between the token before the `k`-th one (or the start) and the `k`-th token.
pub open spec fn text_before(s: Seq<char>, spans: Seq<(usize, usize)>, k: int) -> Seq<char> {
    s.subrange(search_from(spans, k), spans[k].0 as int)
}

/// The text after the last token.
pub open spec fn text_after(s: Seq<char>, spans: Seq<(usize, usize)>) -> Seq<char> {
    s.subrange(tail_start(spans), s.len() as int)
}

/// What is wrong with the `k`-th token of pattern `s` under the replacement map `m`, checked
/// in this order: blank name, directly after the previous token, invalid text before it,
/// invalid name, invalid replacement value.
pub open spec fn token_fault(
    s: Seq<char>,
    spans: Seq<(usize, usize)>,
    m: Map<Seq<char>, Seq<char>>,
    k: int,
) -> Option<PatternFault> {
    let name = token_name(s, spans, k);
    if is_blank_text(name) {
        Some(PatternFault::EmptyToken)
    } else if k > 0 && spans[k - 1].1 == spans[k].0 {
        Some(PatternFault::AdjacentTokens)
    } else if has_invalid_topic_char(text_before(s, spans, k)) {
        Some(PatternFault::InvalidCharacters)
    } else if has_invalid_topic_char(name) || has_char(name, '/') {
        Some(PatternFault::InvalidToken(name))
    } else if m.contains_key(name) && !is_valid_replacement_text(m[name]) {
        Some(PatternFault::Replacement(name, m[name]))
    } else {
        None
    }
}

/// The `k`-th token with the text before it, after replacement: the map's value for the
/// token's name where it has one, else the token as it stands.
pub open spec fn token_expansion(
    s: Seq<char>,
    spans: Seq<(usize, usize)>,
    m: Map<Seq<char>, Seq<char>>,
    k: int,
) -> Seq<char> {
    let name = token_name(s, spans, k);
    text_before(s, spans, k) + if m.contains_key(name) {
        m[name]
    } else {
        s.subrange(spans[k].0 as int, spans[k].1 as int)
    }
}

/// `pre` put in front of a successful result.
pub open spec fn prepend<E>(r: Result<Seq<char>, E>, pre: Seq<char>) -> Result<Seq<char>, E> {
    match r {
        Ok(t) => Ok(pre + t),
        Err(f) => Err(f),
    }
}

/// The pattern `s` expanded from its `k`-th token on, or the first fault found there.
pub open spec fn expand_from(
    s: Seq<char>,
    spans: Seq<(usize, usize)>,
    m: Map<Seq<char>, Seq<char>>,
    k: int,
) -> Result<Seq<char>, PatternFault>
    decreases spans.len() - k,
{
    if k < 0 || k >= spans.len() {
        if has_invalid_topic_char(text_after(s, spans)) {
            Err(PatternFault::InvalidCharacters)
        } else {
            Ok(text_after(s, spans))
        }
    } else {
        match token_fault(s, spans, m, k) {
            Some(f) => Err(f),
            None => prepend(expand_from(s, spans, m, k + 1), token_expansion(s, spans, m, k)),
        }
    }
}

/// The share name is blank, holds an invalid character, or holds `'/'`.
pub open spec fn is_invalid_share_name(s: Seq<char>) -> bool {
    is_blank_text(s) || has_invalid_topic_char(s) || has_char(s, '/')
}

/// The namespace and a `'/'`, where there is a namespace; nothing otherwise.
pub open spec fn namespace_prefix(namespace: Option<Seq<char>>) -> Seq<char> {
    match namespace {
        Some(n) => n + seq!['/'],
        None => Seq::<char>::empty(),
    }
}

/// What `TopicPattern::new` makes of its arguments: the pattern after the initial
/// replacements (with the namespace and a `'/'` in front), or the first fault.
pub open spec fn new_outcome(
    pattern: Seq<char>,
    share_name: Option<Seq<char>>,
    namespace: Option<Seq<char>>,
    m: Map<Seq<char>, Seq<char>>,
) -> Result<Seq<char>, PatternFault> {
    if is_blank_text(pattern) {
        Err(PatternFault::Blank)
    } else if pattern[0] == '$' {
        Err(PatternFault::DollarPrefix)
    } else if share_name is Some && is_invalid_share_name(share_name.unwrap()) {
        Err(PatternFault::ShareName)
    } else if has_empty_level(pattern) {
        Err(PatternFault::EmptyLevel)
    } else if namespace is Some && !is_valid_replacement_text(namespace.unwrap()) {
        Err(PatternFault::Namespace)
    } else {
        prepend(expand_from(pattern, token_spans(pattern), m, 0), namespace_prefix(namespace))
    }
}

/// The facts that a token span list gives about its `k`-th span.
pub proof fn lemma_span_facts(s: Seq<char>, spans: Seq<(usize, usize)>, k: int)
    requires
        are_token_spans(s, spans),
        0 <= k < spans.len(),
    ensures
        is_token_span(s, spans[k].0 as int, spans[k].1 as int),
        search_from(spans, k) <= spans[k].0,
        k > 0 ==> spans[k - 1].1 >= 3,
{
    reveal(are_token_spans);
    if k > 0 {
        assert(is_token_span(s, spans[k - 1].0 as int, spans[k - 1].1 as int));
    }
}

/// The tail of a token span list lies within the text.
pub proof fn lemma_tail_facts(s: Seq<char>, spans: Seq<(usize, usize)>)
    requires
        are_token_spans(s, spans),
    ensures
        0 <= tail_start(spans) <= s.len(),
{
    reveal(are_token_spans);
    if spans.len() > 0 {
        let k = spans.len() - 1;
        assert(is_token_span(s, spans[k].0 as int, spans[k].1 as int));
    }
}

// ---------------------------------------------------------------------------------------
// Topic patterns
// ---------------------------------------------------------------------------------------

/// Represents a topic pattern for Azure IoT Operations Protocol topics
#[derive(Debug, Clone)]
pub struct TopicPattern {
    /// The topic pattern before the initial replacements have been made
    static_pattern: String,
    /// The topic pattern after the initial replacements have been made
    dynamic_pattern: String,
    /// The share name for the topic pattern
    share_name: Option<String>,
    /// The topic namespace that the topics of the pattern start with
    topic_namespace: Option<String>,
}

/// The texts that a topic pattern holds.
pub struct TopicPatternView {
    pub static_pattern: Seq<char>,
    pub dynamic_pattern: Seq<char>,
    pub share_name: Option<Seq<char>>,
    pub namespace: Option<Seq<char>>,
}

impl View for TopicPattern {
    type V = TopicPatternView;

    closed spec fn view(&self) -> TopicPatternView {
        TopicPatternView {
            static_pattern: self.static_pattern@,
            dynamic_pattern: self.dynamic_pattern@,
            share_name: opt_text(self.share_name),
            namespace: opt_text(self.topic_namespace),
        }
    }
}

impl TopicPattern {
    /// Creates a new topic pattern from a pattern string
    ///
    /// Returns a new [`TopicPattern`] on success, or [`TopicPatternError`] on failure
    ///
    /// # Arguments
    /// * `pattern` - A string slice representing the topic pattern
    /// * `share_name` - An optional string representing the share name for the topic pattern
    /// * `topic_namespace` - An optional string slice representing the topic namespace
    /// * `topic_token_map` - A map of token replacements for initial replacement
    ///
    /// # Errors
    /// The kind of error is determined by which argument is invalid:
    /// - Has kind [`TopicPatternErrorKind::Pattern`] if the pattern is invalid
    /// - Has kind [`TopicPatternErrorKind::ShareName`] if the share name is invalid
    /// - Has kind [`TopicPatternErrorKind::Namespace`] if the topic namespace is invalid
    /// - Has kind [`TopicPatternErrorKind::TokenReplacement`] if the token replacement is invalid
    pub fn new(
        pattern: &str,
        share_name: Option<String>,
        topic_namespace: Option<&str>,
        topic_token_map: &TokenMap,
    ) -> (r: Result<TopicPattern, TopicPatternError>)
        ensures
            match r {
                Ok(tp) => {
                    &&& new_outcome(pattern@, opt_text(share_name), opt_str_text(topic_namespace), topic_token_map@)
                        == Ok::<Seq<char>, PatternFault>(tp@.dynamic_pattern)
                    &&& tp@.static_pattern == pattern@
                    &&& tp@.share_name == opt_text(share_name)
                    &&& tp@.namespace == opt_str_text(topic_namespace)
                },
                Err(e) => {
                    let o = new_outcome(pattern@, opt_text(share_name), opt_str_text(topic_namespace), topic_token_map@);
                    &&& o is Err
                    &&& e@ == fault_error(o->Err_0, pattern@, opt_text(share_name), opt_str_text(topic_namespace))
                },
            },
    {
        let ghost p = pattern@;
        let ghost sn = opt_text(share_name);
        let ghost ns = opt_str_text(topic_namespace);
        let ghost m = topic_token_map@;
        if is_blank(pattern) {
            return Err(TopicPatternError::of_pattern(pattern, "Pattern is empty"));
        }
        if pattern.get_char(0) == '$' {
            return Err(TopicPatternError::of_pattern(pattern, "Pattern must not start with '$'"));
        }
        match &share_name {
            Some(s) => {
                if is_blank(s.as_str()) || contains_invalid_char(s.as_str()) || contains_char(s.as_str(), '/') {
                    return Err(TopicPatternError::of_kind(TopicPatternErrorKind::ShareName(s.clone())));
                }
            },
            None => {},
        }
        if regex_is_match(EMPTY_LEVEL_REGEX, pattern) {
            return Err(TopicPatternError::of_pattern(pattern, "Contains empty level(s)"));
        }

        // Used to accumulate the pattern as checks and replacements are made
        let mut acc_pattern = String::new();
        match topic_namespace {
            Some(n) => {
                if !is_valid_replacement(n) {
                    return Err(TopicPatternError::of_kind(TopicPatternErrorKind::Namespace(n.to_owned())));
                }
                acc_pattern.append(n);
                proof { reveal_strlit("/"); }
                acc_pattern.append("/");
            },
            None => {},
        }
        let ghost prefix = acc_pattern@;
        assert(prefix == match ns { Some(n) => n + seq!['/'], None => Seq::<char>::empty() });

        let spans = find_token_spans(TOKEN_REGEX, pattern);
        proof {
            lemma_token_spans_are(p, spans@);
        }
        let ghost sp = spans@;
        assert(new_outcome(p, sn, ns, m) == prepend(expand_from(p, sp, m, 0), prefix));
        let ghost mut done: Seq<char> = Seq::empty();

        // Marks the end of the last token seen in the pattern
        let mut last_match: usize = 0;
        let mut k: usize = 0;
        while k < spans.len()
            invariant
                p == pattern@,
                sp == spans@,
                m == topic_token_map@,
                are_token_spans(p, sp),
                sp == token_spans(p),
                sn == opt_text(share_name),
                ns == opt_str_text(topic_namespace),
                new_outcome(p, sn, ns, m) == prepend(expand_from(p, sp, m, 0), prefix),
                k <= sp.len(),
                last_match == search_from(sp, k as int),
                acc_pattern@ == prefix + done,
                expand_from(p, sp, m, 0) == prepend(expand_from(p, sp, m, k as int), done),
            decreases sp.len() - k,
        {
            proof {
                lemma_span_facts(p, sp, k as int);
            }
            let (start, end) = spans[k];
            let token_with_braces = pattern.substring_char(start, end);
            let token = pattern.substring_char(start + 1, end - 1);
            assert(token@ == token_name(p, sp, k as int));
            if is_blank(token) {
                return Err(TopicPatternError::of_pattern(pattern, "Contains empty token"));
            }
            if last_match != 0 && last_match == start {
                return Err(TopicPatternError::of_pattern(pattern, "Contains adjacent tokens"));
            }
            // The text up to the token
            let acc = pattern.substring_char(last_match, start);
            assert(acc@ == text_before(p, sp, k as int));
            if regex_is_match(INVALID_CHAR_REGEX, acc) {
                return Err(TopicPatternError::of_pattern(pattern, "Contains invalid characters"));
            }
            acc_pattern.append(acc);

            if regex_is_match(INVALID_CHAR_REGEX, token) || contains_char(token, '/') {
                let mut msg = String::from_str("Contains invalid characters in token ");
                msg.append(token);
                return Err(TopicPatternError { msg: Some(msg), kind: TopicPatternErrorKind::Pattern(pattern.to_owned()) });
            }
            match topic_token_map.get(token) {
                Some(val) => {
                    if !is_valid_replacement(val.as_str()) {
                        return Err(
                            TopicPatternError::of_kind(
                                TopicPatternErrorKind::TokenReplacement(token.to_owned(), val.clone()),
                            ),
                        );
                    }
                    acc_pattern.append(val.as_str());
                },
                None => {
                    acc_pattern.append(token_with_braces);
                },
            }
            proof {
                assert(token_fault(p, sp, m, k as int) is None);
                assert(done + token_expansion(p, sp, m, k as int) =~= acc_pattern@.subrange(prefix.len() as int, acc_pattern@.len() as int));
                let e = expand_from(p, sp, m, k + 1);
                assert(expand_from(p, sp, m, k as int) == prepend(e, token_expansion(p, sp, m, k as int)));
                match e {
                    Ok(t) => {
                        assert(done + (token_expansion(p, sp, m, k as int) + t) =~= (done + token_expansion(p, sp, m, k as int)) + t);
                    },
                    Err(f) => {},
                }
                done = done + token_expansion(p, sp, m, k as int);
                assert(acc_pattern@ =~= prefix + done);
            }
            last_match = end;
            k = k + 1;
        }
        proof {
            lemma_tail_facts(p, sp);
        }
        let acc = pattern.substring_char(last_match, pattern.unicode_len());
        assert(acc@ == text_after(p, sp));
        if regex_is_match(INVALID_CHAR_REGEX, acc) {
            return Err(TopicPatternError::of_pattern(pattern, "Contains invalid characters"));
        }
        acc_pattern.append(acc);
        proof {
            assert(acc_pattern@ =~= prefix + (done + acc@));
        }
        let topic_namespace = match topic_namespace {
            Some(n) => Some(n.to_owned()),
            None => None,
        };
        Ok(
            TopicPattern {
                static_pattern: pattern.to_owned(),
                dynamic_pattern: acc_pattern,
                share_name,
                topic_namespace,
            },
        )
    }
}

// ---------------------------------------------------------------------------------------
// Subscribe and publish topics
// ---------------------------------------------------------------------------------------

/// The subscribe topic of a pattern: its tokens replaced by the wildcard, and
/// `$share/<share name>/` in front where it has a share name.
pub open spec fn subscribe_topic(v: TopicPatternView) -> Seq<char> {
    let topic = replace_tokens(v.dynamic_pattern, "+"@);
    match v.share_name {
        Some(n) => "$share/"@ + n + "/"@ + topic,
        None => topic,
    }
}

/// The publish topic of pattern `s` from its `k`-th token on, with the tokens replaced by the
/// values in `m`; or the name of the first token that `m` has no valid value for, with the
/// value found (empty where there is none).
pub open spec fn publish_from(
    s: Seq<char>,
    spans: Seq<(usize, usize)>,
    m: Map<Seq<char>, Seq<char>>,
    k: int,
) -> Result<Seq<char>, (Seq<char>, Seq<char>)>
    decreases spans.len() - k,
{
    if k < 0 || k >= spans.len() {
        Ok(text_after(s, spans))
    } else {
        let name = token_name(s, spans, k);
        if !m.contains_key(name) {
            Err((name, Seq::<char>::empty()))
        } else if !is_valid_replacement_text(m[name]) {
            Err((name, m[name]))
        } else {
            prepend(publish_from(s, spans, m, k + 1), text_before(s, spans, k) + m[name])
        }
    }
}

/// The publish topic of a pattern under the replacement map `m`.
pub open spec fn publish_outcome(v: TopicPatternView, m: Map<Seq<char>, Seq<char>>) -> Result<Seq<char>, (Seq<char>, Seq<char>)> {
    publish_from(v.dynamic_pattern, token_spans(v.dynamic_pattern), m, 0)
}

impl TopicPattern {
    /// The topic pattern before the initial replacements have been made
    pub fn static_pattern(&self) -> (r: &str)
        ensures
            r@ == self@.static_pattern,
    {
        self.static_pattern.as_str()
    }

    /// The topic pattern after the initial replacements have been made
    pub fn dynamic_pattern(&self) -> (r: &str)
        ensures
            r@ == self@.dynamic_pattern,
    {
        self.dynamic_pattern.as_str()
    }

    /// The share name for the topic pattern
    pub fn share_name(&self) -> (r: Option<&String>)
        ensures
            match r {
                Some(s) => self@.share_name == Some(s@),
                None => self@.share_name is None,
            },
    {
        match &self.share_name {
            Some(s) => Some(s),
            None => None,
        }
    }

    /// Get the subscribe topic for the pattern
    ///
    /// If a share name is present, it is prepended to the topic pattern
    ///
    /// Returns the subscribe topic for the pattern
    pub fn as_subscribe_topic(&self) -> (r: String)
        ensures
            r@ == subscribe_topic(self@),
    {
        proof {
            reveal_strlit("+");
            assert(!has_char(WILDCARD@, '$'));
        }
        let topic = regex_replace_all(TOKEN_REGEX, self.dynamic_pattern.as_str(), WILDCARD);
        match &self.share_name {
            Some(share_name) => {
                let mut r = String::from_str("$share/");
                r.append(share_name.as_str());
                r.append("/");
                r.append(topic.as_str());
                r
            },
            None => topic,
        }
    }

    /// Get the publish topic for the pattern
    ///
    /// Returns the publish topic as a String on success, or an [`TopicPatternError`] on failure
    ///
    /// # Arguments
    /// * `tokens` - A map of token replacements for the topic pattern, can be empty if there are
    ///     no replacements to be made
    ///
    /// # Errors
    /// The error kind will be [`TopicPatternErrorKind::TokenReplacement`] if the topic
    /// contains a token that was not provided in the replacement map, or if the replacement is
    /// invalid.
    pub fn as_publish_topic(&self, tokens: &TokenMap) -> (r: Result<String, TopicPatternError>)
        ensures
            match r {
                Ok(t) => publish_outcome(self@, tokens@) == Ok::<Seq<char>, (Seq<char>, Seq<char>)>(t@),
                Err(e) => {
                    let o = publish_outcome(self@, tokens@);
                    &&& o is Err
                    &&& e@ == (ErrorKindView::TokenReplacement(o->Err_0.0, o->Err_0.1), None::<Seq<char>>)
                },
            },
    {
        let d = self.dynamic_pattern.as_str();
        let ghost ds = d@;
        let ghost m = tokens@;
        let spans = find_token_spans(TOKEN_REGEX, d);
        proof {
            lemma_token_spans_are(ds, spans@);
        }
        let ghost sp = spans@;
        let ghost mut done: Seq<char> = Seq::empty();
        let mut publish_topic = String::new();

        // Marks the end of the last token seen in the pattern
        let mut last_match: usize = 0;
        let mut k: usize = 0;
        while k < spans.len()
            invariant
                ds == d@,
                ds == self@.dynamic_pattern,
                sp == spans@,
                m == tokens@,
                are_token_spans(ds, sp),
                sp == token_spans(ds),
                k <= sp.len(),
                last_match == search_from(sp, k as int),
                publish_topic@ == done,
                publish_from(ds, sp, m, 0) == prepend(publish_from(ds, sp, m, k as int), done),
            decreases sp.len() - k,
        {
            proof {
                lemma_span_facts(ds, sp, k as int);
            }
            let (start, end) = spans[k];
            let key = d.substring_char(start + 1, end - 1);
            assert(key@ == token_name(ds, sp, k as int));
            // Accumulate the pattern up to the token
            let before = d.substring_char(last_match, start);
            assert(before@ == text_before(ds, sp, k as int));
            publish_topic.append(before);
            match tokens.get(key) {
                Some(val) => {
                    if !is_valid_replacement(val.as_str()) {
                        return Err(
                            TopicPatternError::of_kind(
                                TopicPatternErrorKind::TokenReplacement(key.to_owned(), val.clone()),
                            ),
                        );
                    }
                    publish_topic.append(val.as_str());
                },
                None => {
                    return Err(
                        TopicPatternError::of_kind(
                            TopicPatternErrorKind::TokenReplacement(key.to_owned(), String::new()),
                        ),
                    );
                },
            }
            proof {
                let piece = text_before(ds, sp, k as int) + m[token_name(ds, sp, k as int)];
                let e = publish_from(ds, sp, m, k + 1);
                match e {
                    Ok(t) => {
                        assert(done + (piece + t) =~= (done + piece) + t);
                    },
                    Err(f) => {},
                }
                done = done + piece;
                assert(publish_topic@ =~= done);
            }
            last_match = end;
            k = k + 1;
        }
        proof {
            lemma_tail_facts(ds, sp);
        }
        let after = d.substring_char(last_match, d.unicode_len());
        assert(after@ == text_after(ds, sp));
        publish_topic.append(after);
        Ok(publish_topic)
    }
}

// ---------------------------------------------------------------------------------------
// Parsing token values out of a topic
// ---------------------------------------------------------------------------------------

/// The byte `'/'`.
pub open spec fn is_slash_byte(b: u8) -> bool {
    b == 0x2f
}

/// The index of the first `'/'` in `b`, or `b.len()` where it has none.
pub open spec fn first_slash(b: Seq<u8>) -> int
    decreases b.len(),
{
    if b.len() == 0 {
        0
    } else if is_slash_byte(b[0]) {
        0
    } else {
        1 + first_slash(b.drop_first())
    }
}

/// The bytes of `b` before its first `'/'`.
pub open spec fn level_value(b: Seq<u8>) -> Seq<u8> {
    b.subrange(0, first_slash(b))
}

/// The bytes of `b` after its first `'/'` (none where it has no `'/'`).
pub open spec fn after_level(b: Seq<u8>) -> Seq<u8> {
    if first_slash(b) < b.len() {
        b.subrange(first_slash(b) + 1, b.len() as int)
    } else {
        Seq::<u8>::empty()
    }
}

/// Where, in what is left of the topic, the value of the `k`-th token of pattern `s` starts:
/// the byte length of the pattern text between the previous token (and the `'/'` after it)
/// and this token.
pub open spec fn value_offset(s: Seq<char>, spans: Seq<(usize, usize)>, k: int) -> int {
    if k == 0 {
        byte_len_upto(s, spans[0].0 as int)
    } else {
        byte_len_upto(s, spans[k].0 as int) - (byte_len_upto(s, spans[k - 1].1 as int) + 1)
    }
}

/// Walking the topic bytes `b` from the `k`-th token of pattern `s` on never cuts the topic
/// outside its bounds or inside a character.
pub open spec fn parse_walk_ok(s: Seq<char>, spans: Seq<(usize, usize)>, b: Seq<u8>, k: int) -> bool
    decreases spans.len() - k,
{
    if k < 0 || k >= spans.len() {
        true
    } else {
        let off = value_offset(s, spans, k);
        &&& 0 <= off <= b.len()
        &&& is_char_boundary(b, off)
        &&& parse_walk_ok(s, spans, after_level(b.subrange(off, b.len() as int)), k + 1)
    }
}

/// The token values found by walking the topic bytes `b` from the `k`-th token of pattern
/// `s` on, added to `acc`: each token's value is the level that starts at its offset.
pub open spec fn parse_walk(
    s: Seq<char>,
    spans: Seq<(usize, usize)>,
    b: Seq<u8>,
    k: int,
    acc: Map<Seq<char>, Seq<char>>,
) -> Map<Seq<char>, Seq<char>>
    decreases spans.len() - k,
{
    if k < 0 || k >= spans.len() {
        acc
    } else {
        let r = b.subrange(value_offset(s, spans, k), b.len() as int);
        parse_walk(
            s,
            spans,
            after_level(r),
            k + 1,
            acc.insert(token_name(s, spans, k), decode_utf8(level_value(r))),
        )
    }
}

/// `parse_tokens` does not panic on `topic` for pattern `v`.
pub open spec fn parse_tokens_defined(v: TopicPatternView, topic: Seq<char>) -> bool {
    let b = encode_utf8(topic);
    let k = encode_utf8(namespace_prefix(v.namespace)).len() as int;
    &&& k <= b.len()
    &&& is_char_boundary(b, k)
    &&& parse_walk_ok(v.static_pattern, token_spans(v.static_pattern), b.subrange(k, b.len() as int), 0)
}

/// The bytes of `topic` past the namespace and the `'/'` after it, where the pattern has a
/// namespace: the part of the topic that the pattern's own text gives.
pub open spec fn topic_past_namespace(v: TopicPatternView, topic: Seq<char>) -> Seq<u8> {
    let b = encode_utf8(topic);
    b.subrange(encode_utf8(namespace_prefix(v.namespace)).len() as int, b.len() as int)
}

/// The token values that `parse_tokens` finds in `topic` for pattern `v`: for each token, the
/// level that the topic holds where the pattern holds the token.
pub open spec fn parsed_tokens(v: TopicPatternView, topic: Seq<char>) -> Map<Seq<char>, Seq<char>> {
    parse_walk(v.static_pattern, token_spans(v.static_pattern), topic_past_namespace(v, topic), 0, Map::empty())
}

/// The first `'/'` found by a scan is `first_slash`.
pub proof fn lemma_first_slash_at(b: Seq<u8>, i: int)
    requires
        0 <= i <= b.len(),
        i < b.len() ==> is_slash_byte(b[i]),
        forall|j: int| 0 <= j < i ==> !is_slash_byte(#[trigger] b[j]),
    ensures
        first_slash(b) == i,
    decreases i,
{
    if i > 0 {
        let d = b.drop_first();
        assert forall|j: int| 0 <= j < i - 1 implies !is_slash_byte(#[trigger] d[j]) by {
            assert(d[j] == b[j + 1]);
        }
        lemma_first_slash_at(d, i - 1);
    }
}

/// An ASCII byte of valid UTF-8 sits on a character boundary, and so does the byte after it.
proof fn lemma_ascii_byte_boundaries(b: Seq<u8>, i: int)
    requires
        valid_utf8(b),
        0 <= i < b.len(),
        b[i] <= 0x7f,
    ensures
        is_char_boundary(b, i),
        is_char_boundary(b, i + 1),
{
    is_char_boundary_iff_not_is_continuation_byte(b, i);
    let a = b.subrange(i, b.len() as int);
    valid_utf8_split(b, i);
    assert(is_char_boundary(a, 1)) by {
        reveal_with_fuel(is_char_boundary, 2);
        is_char_boundary_start_end_of_seq(a.subrange(1, a.len() as int));
        assert(pop_first_scalar(a) =~= a.subrange(1, a.len() as int));
    }
    if i + 1 < b.len() {
        is_char_boundary_iff_not_is_continuation_byte(a, 1);
        is_char_boundary_iff_not_is_continuation_byte(b, i + 1);
        assert(a[1] == b[i + 1]);
    } else {
        is_char_boundary_start_end_of_seq(b);
    }
}

/// The text of a string slice is the decoding of its bytes.
proof fn lemma_str_decodes(t: &str)
    ensures
        valid_utf8(t.spec_bytes()),
        decode_utf8(t.spec_bytes()) == t@,
{
    encode_utf8_valid_utf8(t@);
    encode_utf8_decode_utf8(t@);
}

/// Splits `rest` at its first `'/'`: the text before it, and the text after it.
fn split_at_slash(rest: &str) -> (r: (&str, &str))
    ensures
        r.0.spec_bytes() == level_value(rest.spec_bytes()),
        r.1.spec_bytes() == after_level(rest.spec_bytes()),
{
    let bytes = rest.as_bytes();
    let ghost b = rest.spec_bytes();
    proof {
        lemma_str_decodes(rest);
    }
    let mut i: usize = 0;
    while i < bytes.len()
        invariant
            bytes@ == b,
            b == rest.spec_bytes(),
            valid_utf8(b),
            i <= b.len(),
            forall|j: int| 0 <= j < i ==> !is_slash_byte(#[trigger] b[j]),
        decreases b.len() - i,
    {
        if bytes[i] == 0x2f {
            proof {
                lemma_first_slash_at(b, i as int);
                lemma_ascii_byte_boundaries(b, i as int);
            }
            let (value, with_slash) = rest.split_at(i);
            proof {
                valid_utf8_split(b, i as int);
                let w = b.subrange(i as int, b.len() as int);
                assert(with_slash.spec_bytes() =~= w);
                lemma_ascii_byte_boundaries(w, 0);
            }
            let (_, after) = with_slash.split_at(1);
            proof {
                assert(after.spec_bytes() =~= after_level(b));
            }
            return (value, after);
        }
        i = i + 1;
    }
    proof {
        lemma_first_slash_at(b, b.len() as int);
        is_char_boundary_start_end_of_seq(b);
    }
    let (value, after) = rest.split_at(bytes.len());
    proof {
        assert(value.spec_bytes() =~= level_value(b));
        assert(after.spec_bytes() =~= after_level(b));
    }
    (value, after)
}

/// The encoding of a namespace and a `'/'` is one byte longer than that of the namespace.
proof fn lemma_namespace_prefix_len(n: Seq<char>)
    ensures
        encode_utf8(n + seq!['/']).len() == encode_utf8(n).len() + 1,
{
    crate::text::lemma_encode_concat(n, seq!['/']);
    let slash = seq!['/'];
    assert(slash.drop_first() =~= Seq::<char>::empty());
    assert(('/' as u32) == 47);
    assert(encode_utf8(slash) == vstd::utf8::encode_scalar(slash[0] as u32) + encode_utf8(slash.drop_first()));
}

impl TopicPattern {
    /// What follows the namespace and the `'/'` after it in `topic`, where the pattern has a
    /// namespace; the whole topic otherwise. `None` where the topic is too short for the
    /// namespace or would be cut inside a character.
    fn past_namespace<'a>(&self, topic: &'a str) -> (r: Option<&'a str>)
        ensures
            ({
                let b = encode_utf8(topic@);
                let k = encode_utf8(namespace_prefix(self@.namespace)).len() as int;
                match r {
                    Some(rest) => k <= b.len() && is_char_boundary(b, k) && rest.spec_bytes()
                        == topic_past_namespace(self@, topic@),
                    None => !(k <= b.len() && is_char_boundary(b, k)),
                }
            }),
    {
        proof {
            encode_utf8_valid_utf8(topic@);
        }
        match &self.topic_namespace {
            None => {
                proof {
                    let b = encode_utf8(topic@);
                    assert(namespace_prefix(self@.namespace) =~= Seq::<char>::empty());
                    assert(encode_utf8(Seq::<char>::empty()).len() == 0);
                    assert(b.subrange(0, b.len() as int) =~= b);
                }
                Some(topic)
            },
            Some(n) => {
                proof {
                    lemma_namespace_prefix_len(n@);
                }
                let nb = n.as_str().as_bytes().len();
                let tl = topic.as_bytes().len();
                if nb >= tl {
                    return None;
                }
                let skip = nb + 1;
                if !topic.is_char_boundary(skip) {
                    return None;
                }
                let (_, rest) = topic.split_at(skip);
                Some(rest)
            },
        }
    }

    /// Compare an MQTT topic name to the [`TopicPattern`], identifying tokens in the topic
    /// name and returning the corresponding values.
    ///
    /// Returns a map of tokens to values in the topic name. Where the pattern has a topic
    /// namespace, the topic's namespace and the `'/'` after it are passed over first.
    pub fn parse_tokens(&self, topic: &str) -> (tokens: TokenMap)
        requires
            parse_tokens_defined(self@, topic@),
        ensures
            tokens@ == parsed_tokens(self@, topic@),
    {
        let st = self.static_pattern.as_str();
        let ghost s = st@;
        let spans = find_token_spans(TOKEN_REGEX, st);
        proof {
            lemma_token_spans_are(s, spans@);
        }
        let ghost sp = spans@;
        let mut tokens = TokenMap::new();

        // What is left of the topic, past the namespace
        let mut topic_ref: &str = match self.past_namespace(topic) {
            Some(rest) => rest,
            None => topic,
        };
        // Marks the end, in bytes, of the last token in the pattern
        let mut last_token_end: usize = 0;
        let mut k: usize = 0;
        while k < spans.len()
            invariant
                s == st@,
                s == self@.static_pattern,
                sp == spans@,
                sp == token_spans(s),
                are_token_spans(s, sp),
                k <= sp.len(),
                k > 0 ==> last_token_end == byte_len_upto(s, sp[k - 1].1 as int),
                parse_walk_ok(s, sp, topic_ref.spec_bytes(), k as int),
                parse_walk(s, sp, topic_past_namespace(self@, topic@), 0, Map::empty()) == parse_walk(
                    s,
                    sp,
                    topic_ref.spec_bytes(),
                    k as int,
                    tokens@,
                ),
            decreases sp.len() - k,
        {
            proof {
                lemma_span_facts(s, sp, k as int);
                lemma_str_decodes(topic_ref);
            }
            let (start, end) = spans[k];
            let token_start = st.substring_char(0, start).as_bytes().len();
            let value_start = if k == 0 {
                token_start
            } else {
                token_start - last_token_end - 1
            };
            assert(value_start == value_offset(s, sp, k as int));
            let (_, rest) = topic_ref.split_at(value_start);
            let ghost r = topic_ref.spec_bytes().subrange(value_start as int, topic_ref.spec_bytes().len() as int);
            assert(rest.spec_bytes() =~= r);
            let (value, next) = split_at_slash(rest);
            proof {
                lemma_str_decodes(value);
            }
            let name = st.substring_char(start + 1, end - 1);
            assert(name@ == token_name(s, sp, k as int));
            tokens.insert(name.to_owned(), value.to_owned());
            last_token_end = st.substring_char(0, end).as_bytes().len();
            topic_ref = next;
            k = k + 1;
        }
        tokens
    }

    /// Whether `parse_tokens` can walk `topic`: each token's value starts within what is left
    /// of the topic and on a character boundary.
    pub fn can_parse_tokens(&self, topic: &str) -> (r: bool)
        ensures
            r == parse_tokens_defined(self@, topic@),
    {
        let st = self.static_pattern.as_str();
        let ghost s = st@;
        let spans = find_token_spans(TOKEN_REGEX, st);
        proof {
            lemma_token_spans_are(s, spans@);
        }
        let ghost sp = spans@;
        let mut topic_ref: &str = match self.past_namespace(topic) {
            Some(rest) => rest,
            None => {
                return false;
            },
        };
        let mut last_token_end: usize = 0;
        let mut k: usize = 0;
        while k < spans.len()
            invariant
                s == st@,
                s == self@.static_pattern,
                sp == spans@,
                sp == token_spans(s),
                are_token_spans(s, sp),
                k <= sp.len(),
                k > 0 ==> last_token_end == byte_len_upto(s, sp[k - 1].1 as int),
                parse_walk_ok(s, sp, topic_past_namespace(self@, topic@), 0) == parse_walk_ok(
                    s,
                    sp,
                    topic_ref.spec_bytes(),
                    k as int,
                ),
                encode_utf8(namespace_prefix(self@.namespace)).len() <= encode_utf8(topic@).len(),
                is_char_boundary(encode_utf8(topic@), encode_utf8(namespace_prefix(self@.namespace)).len() as int),
            decreases sp.len() - k,
        {
            proof {
                lemma_span_facts(s, sp, k as int);
                lemma_str_decodes(topic_ref);
            }
            let (start, end) = spans[k];
            let token_start = st.substring_char(0, start).as_bytes().len();
            if k > 0 && token_start <= last_token_end {
                assert(value_offset(s, sp, k as int) < 0);
                assert(!parse_walk_ok(s, sp, topic_ref.spec_bytes(), k as int));
                return false;
            }
            let value_start = if k == 0 {
                token_start
            } else {
                token_start - last_token_end - 1
            };
            assert(value_start == value_offset(s, sp, k as int));
            if value_start > topic_ref.as_bytes().len() {
                assert(!parse_walk_ok(s, sp, topic_ref.spec_bytes(), k as int));
                return false;
            }
            if !topic_ref.is_char_boundary(value_start) {
                assert(!parse_walk_ok(s, sp, topic_ref.spec_bytes(), k as int));
                return false;
            }
            let (_, rest) = topic_ref.split_at(value_start);
            let ghost r = topic_ref.spec_bytes().subrange(value_start as int, topic_ref.spec_bytes().len() as int);
            assert(rest.spec_bytes() =~= r);
            let (_, next) = split_at_slash(rest);
            last_token_end = st.substring_char(0, end).as_bytes().len();
            topic_ref = next;
            k = k + 1;
        }
        true
    }
}

} // verus!
