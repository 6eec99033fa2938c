//! Scenarios for topic patterns: construction, subscribe and publish topics, parsing.

use azure_iot_operations_connector::token_map::TokenMap;
use azure_iot_operations_connector::topic_processor::{TopicPattern, TopicPatternErrorKind};

fn create_topic_tokens() -> TokenMap {
    TokenMap::from_pairs(vec![
        ("testToken1".to_string(), "testRepl1".to_string()),
        ("testToken2".to_string(), "testRepl2".to_string()),
        ("testToken3".to_string(), "testRepl3".to_string()),
    ])
}

fn check_topic_pattern_new_pattern_valid(pattern: &str, result: &str) {
    let pattern = TopicPattern::new(pattern, None, None, &create_topic_tokens()).unwrap();
    assert_eq!(pattern.dynamic_pattern(), result);
}

#[test]
fn test_topic_pattern_new_pattern_valid_no_token() {
    check_topic_pattern_new_pattern_valid("test", "test");
}

#[test]
fn test_topic_pattern_new_pattern_valid_no_token_multiple_levels() {
    check_topic_pattern_new_pattern_valid("test/test", "test/test");
}

#[test]
fn test_topic_pattern_new_pattern_valid_only_wildcard() {
    check_topic_pattern_new_pattern_valid("{wildToken}", "{wildToken}");
}

#[test]
fn test_topic_pattern_new_pattern_valid_only_token() {
    check_topic_pattern_new_pattern_valid("{testToken1}", "testRepl1");
}

#[test]
fn test_topic_pattern_new_pattern_valid_token_at_end() {
    check_topic_pattern_new_pattern_valid("test/{testToken1}", "test/testRepl1");
}

#[test]
fn test_topic_pattern_new_pattern_valid_token_at_start() {
    check_topic_pattern_new_pattern_valid("{testToken1}/test", "testRepl1/test");
}

#[test]
fn test_topic_pattern_new_pattern_valid_token_in_middle() {
    check_topic_pattern_new_pattern_valid("test/{testToken1}/test", "test/testRepl1/test");
}

#[test]
fn test_topic_pattern_new_pattern_valid_multiple_identical_tokens() {
    check_topic_pattern_new_pattern_valid("test/{testToken1}/test/{testToken1}", "test/testRepl1/test/testRepl1");
}

#[test]
fn test_topic_pattern_new_pattern_valid_wildcard_token() {
    check_topic_pattern_new_pattern_valid("{wildToken}/{testToken1}", "{wildToken}/testRepl1");
}

#[test]
fn test_topic_pattern_new_pattern_valid_wildcard_token_at_end() {
    check_topic_pattern_new_pattern_valid("test/{testToken1}/{wildToken}", "test/testRepl1/{wildToken}");
}

#[test]
fn test_topic_pattern_new_pattern_valid_wildcard_token_at_start() {
    check_topic_pattern_new_pattern_valid("{wildToken}/test/{testToken1}", "{wildToken}/test/testRepl1");
}

#[test]
fn test_topic_pattern_new_pattern_valid_wildcard_token_in_middle() {
    check_topic_pattern_new_pattern_valid("test/{testToken1}/{wildToken}/test", "test/testRepl1/{wildToken}/test");
}

#[test]
fn test_topic_pattern_new_pattern_valid_multiple_varied_tokens() {
    check_topic_pattern_new_pattern_valid("test/{testToken1}/{testToken2}/{testToken3}", "test/testRepl1/testRepl2/testRepl3");
}

fn check_topic_pattern_new_pattern_invalid(pattern: &str) {
    let err = TopicPattern::new(pattern, None, None, &create_topic_tokens()).unwrap_err();
    assert!(matches!(err.kind(), TopicPatternErrorKind::Pattern(p) if p == pattern));
}

#[test]
fn test_topic_pattern_new_pattern_invalid_empty() {
    check_topic_pattern_new_pattern_invalid("");
}

#[test]
fn test_topic_pattern_new_pattern_invalid_whitespace() {
    check_topic_pattern_new_pattern_invalid(" ");
}

#[test]
fn test_topic_pattern_new_pattern_invalid_starts_with_dollar() {
    check_topic_pattern_new_pattern_invalid("$invalidPattern/{testToken1}");
}

#[test]
fn test_topic_pattern_new_pattern_invalid_starts_with_slash() {
    check_topic_pattern_new_pattern_invalid("/invalidPattern/{testToken1}");
}

#[test]
fn test_topic_pattern_new_pattern_invalid_ends_with_slash() {
    check_topic_pattern_new_pattern_invalid("{testToken1}/invalidPattern/");
}

#[test]
fn test_topic_pattern_new_pattern_invalid_contains_double_slash() {
    check_topic_pattern_new_pattern_invalid("invalid//Pattern/{testToken1}");
}

#[test]
fn test_topic_pattern_new_pattern_invalid_starts_with_whitespace() {
    check_topic_pattern_new_pattern_invalid(" /invalidPattern/{testToken1}");
}

#[test]
fn test_topic_pattern_new_pattern_invalid_ends_with_whitespace() {
    check_topic_pattern_new_pattern_invalid("{testToken1}/invalidPattern/ ");
}

#[test]
fn test_topic_pattern_new_pattern_invalid_level_contains_only_whitespace() {
    check_topic_pattern_new_pattern_invalid("invalidPattern/ /invalidPattern/{testToken1}");
}

#[test]
fn test_topic_pattern_new_pattern_invalid_level_contains_whitespace() {
    check_topic_pattern_new_pattern_invalid("invalidPattern/invalid Pattern/invalidPattern/{testToken1}");
}

#[test]
fn test_topic_pattern_new_pattern_invalid_level_contains_plus() {
    check_topic_pattern_new_pattern_invalid("invalidPattern/invalid+Pattern/invalidPattern/{testToken1}");
}

#[test]
fn test_topic_pattern_new_pattern_invalid_level_contains_hash() {
    check_topic_pattern_new_pattern_invalid("invalidPattern/invalid#Pattern/invalidPattern/{testToken1}");
}

#[test]
fn test_topic_pattern_new_pattern_invalid_level_contains_close_brace() {
    check_topic_pattern_new_pattern_invalid("invalidPattern/invalid}Pattern/invalidPattern/{testToken1}");
}

#[test]
fn test_topic_pattern_new_pattern_invalid_level_contains_non_ascii() {
    check_topic_pattern_new_pattern_invalid("invalidPattern/invalid\u{0000}Pattern/invalidPattern/{testToken1}");
}

#[test]
fn test_topic_pattern_new_pattern_invalid_level_contains_non_ascii_varied_token() {
    check_topic_pattern_new_pattern_invalid("invalidPattern/{testToken1}/invalid\u{0000}Pattern/invalidPattern/{testToken2}");
}

#[test]
fn test_topic_pattern_new_pattern_invalid_adjacent_tokens() {
    check_topic_pattern_new_pattern_invalid("{testToken1}{testToken1}");
}

#[test]
fn test_topic_pattern_new_pattern_invalid_adjacent_spaced_tokens() {
    check_topic_pattern_new_pattern_invalid("{testToken1} {testToken1}");
}

#[test]
fn test_topic_pattern_new_pattern_invalid_one_adjacent_empty() {
    check_topic_pattern_new_pattern_invalid("{testToken1}{}");
}

#[test]
fn test_topic_pattern_new_pattern_invalid_two_adjacent_empty() {
    check_topic_pattern_new_pattern_invalid("{}{}");
}

#[test]
fn test_topic_pattern_new_pattern_invalid_curly_brace_end() {
    check_topic_pattern_new_pattern_invalid("test/{testToken1}}");
}

fn check_topic_pattern_new_pattern_valid_topic_namespace(topic_namespace: &str) {
    let pattern = "test/{testToken1}";
    TopicPattern::new(pattern, None, Some(topic_namespace), &create_topic_tokens()).unwrap();
}

#[test]
fn test_topic_pattern_new_pattern_valid_topic_namespace_single_level() {
    check_topic_pattern_new_pattern_valid_topic_namespace("validNamespace");
}

#[test]
fn test_topic_pattern_new_pattern_valid_topic_namespace_multiple_levels() {
    check_topic_pattern_new_pattern_valid_topic_namespace("validNamespace/validNamespace");
}

fn check_topic_pattern_new_pattern_invalid_topic_namespace(topic_namespace: &str) {
    let pattern = "test/{testToken1}";
    let err = TopicPattern::new(pattern, None, Some(topic_namespace), &create_topic_tokens())
        .unwrap_err();
    assert!(matches!(err.kind(), TopicPatternErrorKind::Namespace(n) if n == topic_namespace));
}

#[test]
fn test_topic_pattern_new_pattern_invalid_topic_namespace_empty() {
    check_topic_pattern_new_pattern_invalid_topic_namespace("");
}

#[test]
fn test_topic_pattern_new_pattern_invalid_topic_namespace_whitespace() {
    check_topic_pattern_new_pattern_invalid_topic_namespace(" ");
}

#[test]
fn test_topic_pattern_new_pattern_invalid_topic_namespace_contains_space() {
    check_topic_pattern_new_pattern_invalid_topic_namespace("invalid Namespace");
}

#[test]
fn test_topic_pattern_new_pattern_invalid_topic_namespace_contains_plus() {
    check_topic_pattern_new_pattern_invalid_topic_namespace("invalid+Namespace");
}

#[test]
fn test_topic_pattern_new_pattern_invalid_topic_namespace_contains_hash() {
    check_topic_pattern_new_pattern_invalid_topic_namespace("invalid#Namespace");
}

#[test]
fn test_topic_pattern_new_pattern_invalid_topic_namespace_contains_open_brace() {
    check_topic_pattern_new_pattern_invalid_topic_namespace("invalid{Namespace");
}

#[test]
fn test_topic_pattern_new_pattern_invalid_topic_namespace_contains_close_brace() {
    check_topic_pattern_new_pattern_invalid_topic_namespace("invalid}Namespace");
}

#[test]
fn test_topic_pattern_new_pattern_invalid_topic_namespace_contains_non_ascii() {
    check_topic_pattern_new_pattern_invalid_topic_namespace("invalid\u{0000}Namespace");
}

#[test]
fn test_topic_pattern_new_pattern_invalid_topic_namespace_namespace_starts_with_slash() {
    check_topic_pattern_new_pattern_invalid_topic_namespace("/invalidNamespace");
}

#[test]
fn test_topic_pattern_new_pattern_invalid_topic_namespace_namespace_ends_with_slash() {
    check_topic_pattern_new_pattern_invalid_topic_namespace("invalidNamespace/");
}

fn check_topic_pattern_new_pattern_invalid_token(pattern: &str) {
    let err = TopicPattern::new(pattern, None, None, &TokenMap::new()).unwrap_err();
    assert!(matches!(err.kind(), TopicPatternErrorKind::Pattern(p) if p == pattern));
}

#[test]
fn test_topic_pattern_new_pattern_invalid_token_open_brace() {
    check_topic_pattern_new_pattern_invalid_token("test/{{testToken1}");
}

#[test]
fn test_topic_pattern_new_pattern_invalid_token_plus() {
    check_topic_pattern_new_pattern_invalid_token("test/{test+Token}");
}

#[test]
fn test_topic_pattern_new_pattern_invalid_token_hash() {
    check_topic_pattern_new_pattern_invalid_token("test/{test#Token}");
}

#[test]
fn test_topic_pattern_new_pattern_invalid_token_slash() {
    check_topic_pattern_new_pattern_invalid_token("test/{test/Token}");
}

#[test]
fn test_topic_pattern_new_pattern_invalid_token_non_ascii() {
    check_topic_pattern_new_pattern_invalid_token("test/{test\u{0000}Token}");
}

fn check_topic_pattern_new_pattern_invalid_replacement(replacement: &str) {
    let pattern = "test/{testToken}/test";
    let err = TopicPattern::new(
        pattern,
        None,
        None,
        &TokenMap::from_pairs(vec![("testToken".to_string(), replacement.to_string())]),
    )
    .unwrap_err();
    assert!(
        matches!(err.kind(), TopicPatternErrorKind::TokenReplacement(t, r) if t == "testToken" && r == replacement)
    );
}

#[test]
fn test_topic_pattern_new_pattern_invalid_replacement_replacement_contains_space() {
    check_topic_pattern_new_pattern_invalid_replacement("invalid replacement");
}

#[test]
fn test_topic_pattern_new_pattern_invalid_replacement_replacement_contains_plus() {
    check_topic_pattern_new_pattern_invalid_replacement("invalid+replacement");
}

#[test]
fn test_topic_pattern_new_pattern_invalid_replacement_replacement_contains_hash() {
    check_topic_pattern_new_pattern_invalid_replacement("invalid#replacement");
}

#[test]
fn test_topic_pattern_new_pattern_invalid_replacement_replacement_contains_open_brace() {
    check_topic_pattern_new_pattern_invalid_replacement("invalid{replacement");
}

#[test]
fn test_topic_pattern_new_pattern_invalid_replacement_replacement_contains_close_brace() {
    check_topic_pattern_new_pattern_invalid_replacement("invalid}replacement");
}

#[test]
fn test_topic_pattern_new_pattern_invalid_replacement_replacement_contains_double_slash() {
    check_topic_pattern_new_pattern_invalid_replacement("invalid//replacement");
}

#[test]
fn test_topic_pattern_new_pattern_invalid_replacement_replacement_contains_non_ascii_character() {
    check_topic_pattern_new_pattern_invalid_replacement("invalid\u{0000}replacement");
}

#[test]
fn test_topic_pattern_new_pattern_invalid_replacement_replacement_starts_with_slash() {
    check_topic_pattern_new_pattern_invalid_replacement("/invalidReplacement");
}

#[test]
fn test_topic_pattern_new_pattern_invalid_replacement_replacement_ends_with_slash() {
    check_topic_pattern_new_pattern_invalid_replacement("invalidReplacement/");
}

#[test]
fn test_topic_pattern_new_pattern_invalid_replacement_replacement_is_empty() {
    check_topic_pattern_new_pattern_invalid_replacement("");
}

#[test]
fn test_topic_pattern_new_pattern_invalid_replacement_replacement_contains_only_space() {
    check_topic_pattern_new_pattern_invalid_replacement(" ");
}

fn check_topic_pattern_as_subscribe_topic(pattern: &str, result: &str) {
    let pattern = TopicPattern::new(pattern, None, None, &TokenMap::new()).unwrap();
    assert_eq!(pattern.as_subscribe_topic(), result);
}

#[test]
fn test_topic_pattern_as_subscribe_topic_no_token() {
    check_topic_pattern_as_subscribe_topic("test", "test");
}

#[test]
fn test_topic_pattern_as_subscribe_topic_single_token() {
    check_topic_pattern_as_subscribe_topic("{wildToken}", "+");
}

#[test]
fn test_topic_pattern_as_subscribe_topic_token_at_start() {
    check_topic_pattern_as_subscribe_topic("{wildToken}/test", "+/test");
}

#[test]
fn test_topic_pattern_as_subscribe_topic_token_at_end() {
    check_topic_pattern_as_subscribe_topic("test/{wildToken}", "test/+");
}

#[test]
fn test_topic_pattern_as_subscribe_topic_token_in_middle() {
    check_topic_pattern_as_subscribe_topic("test/{wildToken}/test", "test/+/test");
}

#[test]
fn test_topic_pattern_as_subscribe_topic_multiple_tokens() {
    check_topic_pattern_as_subscribe_topic("{wildToken}/{wildToken}", "+/+");
}

#[test]
fn test_topic_pattern_as_subscribe_topic_token_at_start_and_end() {
    check_topic_pattern_as_subscribe_topic("{wildToken}/test/{wildToken}", "+/test/+");
}

#[test]
fn test_topic_pattern_as_subscribe_topic_multiple_wildcards() {
    check_topic_pattern_as_subscribe_topic("{wildToken1}/{wildToken2}", "+/+");
}

fn check_topic_pattern_new_pattern_invalid_share_name(share_name: &str) {
    let err = TopicPattern::new("test", Some(share_name.to_string()), None, &TokenMap::new())
        .unwrap_err();
    assert!(matches!(err.kind(), TopicPatternErrorKind::ShareName(s) if s == share_name));
}

#[test]
fn test_topic_pattern_new_pattern_invalid_share_name_contains_space() {
    check_topic_pattern_new_pattern_invalid_share_name("invalid ShareName");
}

#[test]
fn test_topic_pattern_new_pattern_invalid_share_name_contains_plus() {
    check_topic_pattern_new_pattern_invalid_share_name("invalid+ShareName");
}

#[test]
fn test_topic_pattern_new_pattern_invalid_share_name_contains_hash() {
    check_topic_pattern_new_pattern_invalid_share_name("invalid#ShareName");
}

#[test]
fn test_topic_pattern_new_pattern_invalid_share_name_contains_open_brace() {
    check_topic_pattern_new_pattern_invalid_share_name("invalid{ShareName");
}

#[test]
fn test_topic_pattern_new_pattern_invalid_share_name_contains_close_brace() {
    check_topic_pattern_new_pattern_invalid_share_name("invalid}ShareName");
}

#[test]
fn test_topic_pattern_new_pattern_invalid_share_name_contains_slash() {
    check_topic_pattern_new_pattern_invalid_share_name("invalid/ShareName");
}

#[test]
fn test_topic_pattern_new_pattern_invalid_share_name_contains_non_ascii() {
    check_topic_pattern_new_pattern_invalid_share_name("invalid\u{0000}ShareName");
}

fn check_topic_pattern_as_publish_topic_valid(pattern: &str, tokens: &TokenMap, result: &str) {
    let pattern = TopicPattern::new(pattern, None, None, tokens).unwrap();
    assert_eq!(pattern.as_publish_topic(tokens).unwrap(), result);
}

#[test]
fn test_topic_pattern_as_publish_topic_valid_no_token() {
    check_topic_pattern_as_publish_topic_valid("test", &TokenMap::new(), "test");
}

#[test]
fn test_topic_pattern_as_publish_topic_valid_single_token() {
    check_topic_pattern_as_publish_topic_valid("{testToken}", &TokenMap::from_pairs(vec![("testToken".to_string(), "testRepl".to_string())]), "testRepl");
}

#[test]
fn test_topic_pattern_as_publish_topic_valid_single_token_long_replacement() {
    check_topic_pattern_as_publish_topic_valid("{testToken}", &TokenMap::from_pairs(vec![("testToken".to_string(), "testReplLonger".to_string())]), "testReplLonger");
}

#[test]
fn test_topic_pattern_as_publish_topic_valid_token_at_start() {
    check_topic_pattern_as_publish_topic_valid("{testToken}/test", &TokenMap::from_pairs(vec![("testToken".to_string(), "testRepl".to_string())]), "testRepl/test");
}

#[test]
fn test_topic_pattern_as_publish_topic_valid_token_at_end() {
    check_topic_pattern_as_publish_topic_valid("test/{testToken}", &TokenMap::from_pairs(vec![("testToken".to_string(), "testRepl".to_string())]), "test/testRepl");
}

#[test]
fn test_topic_pattern_as_publish_topic_valid_token_in_middle() {
    check_topic_pattern_as_publish_topic_valid("test/{testToken}/test", &TokenMap::from_pairs(vec![("testToken".to_string(), "testRepl".to_string())]), "test/testRepl/test");
}

#[test]
fn test_topic_pattern_as_publish_topic_valid_multiple_tokens() {
    check_topic_pattern_as_publish_topic_valid("{testToken1}/{testToken2}", &TokenMap::from_pairs(vec![("testToken1".to_string(), "testRepl1".to_string()), ("testToken2".to_string(), "testRepl2".to_string())]), "testRepl1/testRepl2");
}

fn check_topic_pattern_as_publish_topic_invalid(pattern: &str, tokens: &TokenMap, expected_token: &str, expected_replacement: &str) {
    let pattern = TopicPattern::new(pattern, None, None, &TokenMap::new()).unwrap();
    let err = pattern.as_publish_topic(tokens).unwrap_err();
    assert!(
        matches!(err.kind(), TopicPatternErrorKind::TokenReplacement(t, r) if t == expected_token && r == expected_replacement)
    );
}

#[test]
fn test_topic_pattern_as_publish_topic_invalid_no_replacement() {
    check_topic_pattern_as_publish_topic_invalid("{testToken}", &TokenMap::new(), "testToken", "");
}

#[test]
fn test_topic_pattern_as_publish_topic_invalid_replacement_contains_space() {
    check_topic_pattern_as_publish_topic_invalid("{testToken}", &TokenMap::from_pairs(vec![("testToken".to_string(), "invalid Replacement".to_string())]), "testToken", "invalid Replacement");
}

#[test]
fn test_topic_pattern_as_publish_topic_invalid_replacement_contains_plus() {
    check_topic_pattern_as_publish_topic_invalid("{testToken}", &TokenMap::from_pairs(vec![("testToken".to_string(), "invalid+Replacement".to_string())]), "testToken", "invalid+Replacement");
}

#[test]
fn test_topic_pattern_as_publish_topic_invalid_replacement_contains_hash() {
    check_topic_pattern_as_publish_topic_invalid("{testToken}", &TokenMap::from_pairs(vec![("testToken".to_string(), "invalid#Replacement".to_string())]), "testToken", "invalid#Replacement");
}

#[test]
fn test_topic_pattern_as_publish_topic_invalid_replacement_contains_open_brace() {
    check_topic_pattern_as_publish_topic_invalid("{testToken}", &TokenMap::from_pairs(vec![("testToken".to_string(), "invalid{Replacement".to_string())]), "testToken", "invalid{Replacement");
}

#[test]
fn test_topic_pattern_as_publish_topic_invalid_replacement_contains_close_brace() {
    check_topic_pattern_as_publish_topic_invalid("{testToken}", &TokenMap::from_pairs(vec![("testToken".to_string(), "invalid}Replacement".to_string())]), "testToken", "invalid}Replacement");
}

#[test]
fn test_topic_pattern_as_publish_topic_invalid_replacement_contains_double_slash() {
    check_topic_pattern_as_publish_topic_invalid("{testToken}", &TokenMap::from_pairs(vec![("testToken".to_string(), "invalid//Replacement".to_string())]), "testToken", "invalid//Replacement");
}

#[test]
fn test_topic_pattern_as_publish_topic_invalid_replacement_contains_non_ascii_character() {
    check_topic_pattern_as_publish_topic_invalid("{testToken}", &TokenMap::from_pairs(vec![("testToken".to_string(), "invalid\u{0000}Replacement".to_string())]), "testToken", "invalid\u{0000}Replacement");
}

#[test]
fn test_topic_pattern_as_publish_topic_invalid_replacement_starts_with_slash() {
    check_topic_pattern_as_publish_topic_invalid("{testToken}", &TokenMap::from_pairs(vec![("testToken".to_string(), "/invalidReplacement".to_string())]), "testToken", "/invalidReplacement");
}

#[test]
fn test_topic_pattern_as_publish_topic_invalid_replacement_ends_with_slash() {
    check_topic_pattern_as_publish_topic_invalid("{testToken}", &TokenMap::from_pairs(vec![("testToken".to_string(), "invalidReplacement/".to_string())]), "testToken", "invalidReplacement/");
}

#[test]
fn test_topic_pattern_as_publish_topic_invalid_replacement_is_empty() {
    check_topic_pattern_as_publish_topic_invalid("{testToken}", &TokenMap::from_pairs(vec![("testToken".to_string(), String::new())]), "testToken", "");
}

#[test]
fn test_topic_pattern_as_publish_topic_invalid_replacement_contains_only_space() {
    check_topic_pattern_as_publish_topic_invalid("{testToken}", &TokenMap::from_pairs(vec![("testToken".to_string(), " ".to_string())]), "testToken", " ");
}

fn check_topic_pattern_parse_tokens(pattern: &str, topic: &str, result: &TokenMap) {
    let pattern = TopicPattern::new(pattern, None, None, &TokenMap::new()).unwrap();
    assert_eq!(pattern.parse_tokens(topic), *result);
}

#[test]
fn test_topic_pattern_parse_tokens_no_token() {
    check_topic_pattern_parse_tokens("test", "test", &TokenMap::new());
}

#[test]
fn test_topic_pattern_parse_tokens_single_token() {
    check_topic_pattern_parse_tokens("{testToken}", "testRepl", &TokenMap::from_pairs(vec![("testToken".to_string(), "testRepl".to_string())]));
}

#[test]
fn test_topic_pattern_parse_tokens_token_at_start() {
    check_topic_pattern_parse_tokens("{testToken}/test", "testRepl/test", &TokenMap::from_pairs(vec![("testToken".to_string(), "testRepl".to_string())]));
}

#[test]
fn test_topic_pattern_parse_tokens_token_at_end() {
    check_topic_pattern_parse_tokens("test/{testToken}", "test/testRepl", &TokenMap::from_pairs(vec![("testToken".to_string(), "testRepl".to_string())]));
}

#[test]
fn test_topic_pattern_parse_tokens_token_in_middle() {
    check_topic_pattern_parse_tokens("test/{testToken}/test", "test/testRepl/test", &TokenMap::from_pairs(vec![("testToken".to_string(), "testRepl".to_string())]));
}

#[test]
fn test_topic_pattern_parse_tokens_multiple_tokens() {
    check_topic_pattern_parse_tokens("{testToken1}/{testToken2}", "testRepl1/testRepl2", &TokenMap::from_pairs(vec![("testToken1".to_string(), "testRepl1".to_string()),("testToken2".to_string(), "testRepl2".to_string())]));
}

#[test]
fn test_topic_pattern_methods_with_share_name() {
    let share_name = "validShareName";
    let pattern = "test/{testToken1}";
    let result = "$share/validShareName/test/testRepl1";

    let pattern = TopicPattern::new(
        pattern,
        Some(share_name.to_string()),
        None,
        &create_topic_tokens(),
    )
    .unwrap();

    assert_eq!(pattern.as_subscribe_topic(), result);
    assert_eq!(
        pattern.as_publish_topic(&TokenMap::new()).unwrap(),
        "test/testRepl1"
    );
}
