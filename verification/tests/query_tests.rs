use synergy_router::query::parse_query;
use synergy_router::text::str_eq;

#[test]
fn parses_mixed_query_last_occurrence_wins() {
    let params = parse_query("a=1&b&a=2");
    assert_eq!(params.get("a"), Some(String::from("2")));
    assert_eq!(params.get("b"), Some(String::from("")));
    assert_eq!(params.get("c"), None);
}

#[test]
fn empty_query_has_no_entries() {
    let params = parse_query("");
    assert_eq!(params.get(""), None);
    assert_eq!(params.get("prompt"), None);
}

#[test]
fn pair_without_equals_gets_empty_value() {
    let params = parse_query("flag");
    assert_eq!(params.get("flag"), Some(String::from("")));
}

#[test]
fn pair_with_trailing_equals_gets_empty_value() {
    let params = parse_query("flag=");
    assert_eq!(params.get("flag"), Some(String::from("")));
}

#[test]
fn empty_key_is_dropped() {
    let params = parse_query("=x&a=1");
    assert_eq!(params.get(""), None);
    assert_eq!(params.get("a"), Some(String::from("1")));
}

#[test]
fn duplicate_key_keeps_last_value() {
    let params = parse_query("a=1&a=2&a=3");
    assert_eq!(params.get("a"), Some(String::from("3")));
}

#[test]
fn value_keeps_later_equals_signs() {
    let params = parse_query("a=b=c");
    assert_eq!(params.get("a"), Some(String::from("b=c")));
}

#[test]
fn single_pair_parses() {
    let params = parse_query("prompt=Hello");
    assert_eq!(params.get("prompt"), Some(String::from("Hello")));
}

#[test]
fn str_eq_agrees_with_equality() {
    assert!(str_eq("", ""));
    assert!(str_eq("/health", "/health"));
    assert!(!str_eq("/health", "/healt"));
    assert!(!str_eq("/health", "/health2"));
    assert!(!str_eq("abc", "abd"));
}
