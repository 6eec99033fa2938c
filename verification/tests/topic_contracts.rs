//! Topic patterns and token maps on concrete values: the round trip from publish topic back to
//! token values, the error texts, and the token map's operations.

use azure_iot_operations_connector::token_map::TokenMap;
use azure_iot_operations_connector::topic_processor::{
    contains_char, contains_invalid_char, is_blank, is_valid_replacement, is_white_space_char, TopicPattern,
    TopicPatternErrorKind,
};

fn pairs(entries: &[(&str, &str)]) -> TokenMap {
    TokenMap::from_pairs(entries.iter().map(|(k, v)| (k.to_string(), v.to_string())).collect())
}

#[test]
fn published_values_are_parsed_back() {
    let pattern = TopicPattern::new("test/{a}/x/{b}", None, None, &TokenMap::new()).unwrap();
    let values = pairs(&[("a", "one"), ("b", "two")]);
    let topic = pattern.as_publish_topic(&values).unwrap();
    assert_eq!(topic, "test/one/x/two");
    let parsed = pattern.parse_tokens(&topic);
    assert!(parsed.same_entries(&values));
    assert_eq!(parsed.get("a").map(|s| s.as_str()), Some("one"));
    assert_eq!(parsed.get("b").map(|s| s.as_str()), Some("two"));
}

#[test]
fn published_values_are_parsed_back_without_unused_entries() {
    let pattern = TopicPattern::new("{first}/fixed/{second}", None, None, &TokenMap::new()).unwrap();
    let values = pairs(&[("first", "alpha"), ("second", "beta"), ("unused", "gamma")]);
    let topic = pattern.as_publish_topic(&values).unwrap();
    assert_eq!(topic, "alpha/fixed/beta");
    let parsed = pattern.parse_tokens(&topic);
    assert!(parsed == pairs(&[("first", "alpha"), ("second", "beta")]));
}

#[test]
fn publish_without_tokens_gives_the_pattern() {
    let pattern = TopicPattern::new("plain/topic/levels", None, None, &TokenMap::new()).unwrap();
    assert_eq!(pattern.as_publish_topic(&TokenMap::new()).unwrap(), "plain/topic/levels");
    assert_eq!(pattern.as_subscribe_topic(), "plain/topic/levels");
}

#[test]
fn subscribe_topic_replaces_tokens_by_wildcards() {
    let pattern = TopicPattern::new("a/{b}/c/{d}", None, None, &TokenMap::new()).unwrap();
    assert_eq!(pattern.as_subscribe_topic(), "a/+/c/+");
    assert_eq!(pattern.static_pattern(), "a/{b}/c/{d}");
    assert_eq!(pattern.dynamic_pattern(), "a/{b}/c/{d}");
    assert!(pattern.share_name().is_none());
}

#[test]
fn namespace_is_prepended() {
    let pattern = TopicPattern::new("a/{b}", Some("group".to_string()), Some("ns"), &TokenMap::new()).unwrap();
    assert_eq!(pattern.dynamic_pattern(), "ns/a/{b}");
    assert_eq!(pattern.as_subscribe_topic(), "$share/group/ns/a/+");
    assert_eq!(pattern.share_name().map(|s| s.as_str()), Some("group"));
}

#[test]
fn pattern_error_text_repeats_the_kind_after_the_message() {
    let err = TopicPattern::new("", None, None, &TokenMap::new()).unwrap_err();
    assert!(matches!(err.kind(), TopicPatternErrorKind::Pattern(p) if p.is_empty()));
    assert_eq!(err.msg().map(|s| s.as_str()), Some("Pattern is empty"));
    assert_eq!(
        err.to_string(),
        "Topic pattern is invalid - Pattern is emptyTopic pattern is invalid"
    );
}

#[test]
fn share_name_error_text() {
    let err = TopicPattern::new("a", Some("bad/share".to_string()), None, &TokenMap::new()).unwrap_err();
    assert!(err.msg().is_none());
    assert_eq!(err.to_string(), "Share name 'bad/share' is invalid");
    assert_eq!(err.kind().to_string(), "Share name 'bad/share' is invalid");
}

#[test]
fn namespace_error_text() {
    let err = TopicPattern::new("a", None, Some("bad//ns"), &TokenMap::new()).unwrap_err();
    assert!(matches!(err.kind(), TopicPatternErrorKind::Namespace(n) if n == "bad//ns"));
    assert_eq!(err.to_string(), "Topic namespace 'bad//ns' is invalid");
}

#[test]
fn token_replacement_error_text() {
    let err = TopicPattern::new("a/{t}", None, None, &pairs(&[("t", "x/")])).unwrap_err();
    assert!(matches!(err.kind(), TopicPatternErrorKind::TokenReplacement(t, v) if t == "t" && v == "x/"));
    assert_eq!(err.to_string(), "Token 't' replacement value 'x/' is invalid");
}

#[test]
fn publish_with_missing_token_fails() {
    let pattern = TopicPattern::new("a/{t}", None, None, &TokenMap::new()).unwrap();
    let err = pattern.as_publish_topic(&TokenMap::new()).unwrap_err();
    assert!(matches!(err.kind(), TopicPatternErrorKind::TokenReplacement(t, v) if t == "t" && v.is_empty()));
}

#[test]
fn empty_level_is_refused() {
    let err = TopicPattern::new("a//b", None, None, &TokenMap::new()).unwrap_err();
    assert_eq!(err.msg().map(|s| s.as_str()), Some("Contains empty level(s)"));
    let err = TopicPattern::new("a/ /b", None, None, &TokenMap::new()).unwrap_err();
    assert_eq!(err.msg().map(|s| s.as_str()), Some("Contains empty level(s)"));
}

#[test]
fn invalid_character_is_refused() {
    let err = TopicPattern::new("a/b#", None, None, &TokenMap::new()).unwrap_err();
    assert_eq!(err.msg().map(|s| s.as_str()), Some("Contains invalid characters"));
}

#[test]
fn character_checks() {
    assert!(contains_invalid_char("a+b"));
    assert!(contains_invalid_char("caf\u{e9}"));
    assert!(contains_invalid_char("with space"));
    assert!(!contains_invalid_char("plain/text-1"));
    assert!(is_valid_replacement("ok/value"));
    assert!(!is_valid_replacement(""));
    assert!(!is_valid_replacement("/lead"));
    assert!(!is_valid_replacement("trail/"));
    assert!(!is_valid_replacement("a//b"));
    assert!(!is_valid_replacement("{x}"));
    assert!(is_blank(" \t\n"));
    assert!(is_blank(""));
    assert!(!is_blank(" x "));
    assert!(is_white_space_char('\u{3000}'));
    assert!(!is_white_space_char('x'));
    assert!(contains_char("a/b", '/'));
    assert!(!contains_char("ab", '/'));
}

#[test]
fn token_map_insert_replaces_and_get_reads() {
    let mut m = TokenMap::new();
    assert!(m.get("k").is_none());
    m.insert("k".to_string(), "v1".to_string());
    m.insert("other".to_string(), "w".to_string());
    m.insert("k".to_string(), "v2".to_string());
    assert_eq!(m.get("k").map(|s| s.as_str()), Some("v2"));
    assert_eq!(m.get("other").map(|s| s.as_str()), Some("w"));
    assert!(m.same_entries(&pairs(&[("other", "w"), ("k", "v2")])));
    assert!(!m.same_entries(&pairs(&[("k", "v2")])));
}

#[test]
fn token_map_from_pairs_keeps_the_last_value() {
    let m = pairs(&[("a", "1"), ("b", "2"), ("a", "3")]);
    assert_eq!(m.get("a").map(|s| s.as_str()), Some("3"));
    assert!(m == pairs(&[("b", "2"), ("a", "3")]));
    assert!(m != pairs(&[("a", "1"), ("b", "2")]));
}

#[test]
fn token_names_are_found_past_non_ascii_text() {
    let err = TopicPattern::new("a/{t\u{f6}k}/b/{x}", None, None, &TokenMap::new()).unwrap_err();
    assert_eq!(err.msg().map(|s| s.as_str()), Some("Contains invalid characters in token t\u{f6}k"));
    let err = TopicPattern::new("a/{ok}/b/{\u{e9}t\u{e9}}", None, None, &TokenMap::new()).unwrap_err();
    assert_eq!(err.msg().map(|s| s.as_str()), Some("Contains invalid characters in token \u{e9}t\u{e9}"));
}

#[test]
fn non_ascii_values_are_parsed() {
    let pattern = TopicPattern::new("a/{t}/b/{u}", None, None, &TokenMap::new()).unwrap();
    let topic = "a/\u{e9}\u{e9}/b/\u{fc}";
    assert!(pattern.can_parse_tokens(topic));
    let parsed = pattern.parse_tokens(topic);
    assert_eq!(parsed.get("t").map(|s| s.as_str()), Some("\u{e9}\u{e9}"));
    assert_eq!(parsed.get("u").map(|s| s.as_str()), Some("\u{fc}"));
}

#[test]
fn short_topics_cannot_be_parsed() {
    let pattern = TopicPattern::new("level/{t}", None, None, &TokenMap::new()).unwrap();
    assert!(!pattern.can_parse_tokens("lev"));
    assert!(pattern.can_parse_tokens("level/x"));
    let pattern = TopicPattern::new("abc/{t}", None, None, &TokenMap::new()).unwrap();
    assert!(!pattern.can_parse_tokens("a\u{e9}\u{20ac}"));
    assert!(pattern.can_parse_tokens("a\u{e9}/\u{20ac}"));
}

#[test]
fn publish_topics_hold_no_invalid_character() {
    let pattern = TopicPattern::new("a/{x}/{y}/end", None, Some("ns/sub"), &pairs(&[("x", "vx")])).unwrap();
    assert_eq!(pattern.dynamic_pattern(), "ns/sub/a/vx/{y}/end");
    let topic = pattern.as_publish_topic(&pairs(&[("y", "v/y")])).unwrap();
    assert_eq!(topic, "ns/sub/a/vx/v/y/end");
    assert!(!contains_invalid_char(&topic));
    assert!(pattern.as_publish_topic(&pairs(&[("y", "{z}")])).is_err());
}

#[test]
fn published_values_are_parsed_back_with_initial_replacements() {
    let pattern = TopicPattern::new("p/{x}/q/{y}", None, None, &pairs(&[("x", "LONGER")])).unwrap();
    let topic = pattern.as_publish_topic(&pairs(&[("y", "v"), ("x", "ignored")])).unwrap();
    assert_eq!(topic, "p/LONGER/q/v");
    let parsed = pattern.parse_tokens(&topic);
    assert!(parsed == pairs(&[("x", "LONGER"), ("y", "v")]));
}

fn filter_matches(filter: &str, topic: &str) -> bool {
    let f: Vec<&str> = filter.split('/').collect();
    let t: Vec<&str> = topic.split('/').collect();
    f.len() == t.len() && f.iter().zip(t.iter()).all(|(a, b)| *a == "+" || a == b)
}

#[test]
fn publish_topics_match_subscribe_topics() {
    let pattern = TopicPattern::new("fleet/{site}/{device}/telemetry", None, Some("ns"), &pairs(&[("site", "s1")]))
        .unwrap();
    let filter = pattern.as_subscribe_topic();
    assert_eq!(filter, "ns/fleet/s1/+/telemetry");
    let topic = pattern.as_publish_topic(&pairs(&[("device", "d7")])).unwrap();
    assert_eq!(topic, "ns/fleet/s1/d7/telemetry");
    assert!(filter_matches(&filter, &topic));
}

#[test]
fn published_values_are_parsed_back_with_a_namespace() {
    let pattern = TopicPattern::new("{a}", None, Some("ns"), &TokenMap::new()).unwrap();
    let topic = pattern.as_publish_topic(&pairs(&[("a", "x")])).unwrap();
    assert_eq!(topic, "ns/x");
    assert!(pattern.can_parse_tokens(&topic));
    assert!(pattern.parse_tokens(&topic) == pairs(&[("a", "x")]));

    let pattern = TopicPattern::new("dev/{d}/t/{k}", None, Some("ns/sub"), &pairs(&[("k", "temp")])).unwrap();
    let topic = pattern.as_publish_topic(&pairs(&[("d", "d1")])).unwrap();
    assert_eq!(topic, "ns/sub/dev/d1/t/temp");
    assert!(pattern.parse_tokens(&topic) == pairs(&[("d", "d1"), ("k", "temp")]));
    assert!(!pattern.can_parse_tokens("ns/s"));
}
