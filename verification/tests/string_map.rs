use webserver::string_map::{parse_hashmap, StringMap};

fn map_of(pairs: &[(&str, &str)]) -> StringMap {
    let mut m = StringMap::new();
    for (k, v) in pairs {
        m.insert(k.to_string(), v.to_string());
    }
    m
}

fn entries_of(m: &StringMap) -> Vec<(String, String)> {
    let mut out = Vec::new();
    let mut i = 0;
    while let Some((k, v)) = m.entry(i) {
        out.push((k.clone(), v.clone()));
        i += 1;
    }
    out
}

fn pair(k: &str, v: &str) -> (String, String) {
    (k.to_string(), v.to_string())
}

#[test]
fn test_parse_hashmap() {
    let hashmap_test = map_of(&[("sessionID", "1"), ("cookie2", "hello")]);
    let target = " sessionID=1; cookie2=hello; nonvalid";
    let parsed_hashmap = parse_hashmap(target, ";", "=");
    assert_eq!(hashmap_test, parsed_hashmap);
}

#[test]
fn parse_hashmap_keeps_first_place_and_last_value() {
    let parsed = parse_hashmap("a=1&b=2&a=3", "&", "=");
    assert_eq!(entries_of(&parsed), vec![pair("a", "3"), pair("b", "2")]);
    assert_eq!(parsed.get("a"), Some(&"3".to_string()));
    assert_eq!(parsed.len(), 2);
}

#[test]
fn parse_hashmap_splits_at_first_key_value_separator() {
    let parsed = parse_hashmap("ip:127.0.0.1:7878,log_level: 2", ",", ":");
    assert_eq!(parsed.get("ip"), Some(&"127.0.0.1:7878".to_string()));
    assert_eq!(parsed.get("log_level"), Some(&"2".to_string()));
}

#[test]
fn parse_hashmap_of_empty_text_is_empty() {
    let parsed = parse_hashmap("", "&", "=");
    assert!(parsed.is_empty());
    assert_eq!(parsed.len(), 0);
    assert_eq!(parsed.entry(0), None);
}

#[test]
fn parse_hashmap_trims_unicode_whitespace() {
    let parsed = parse_hashmap("\u{a0}key\t=\u{2003}value\r\n", "&", "=");
    assert_eq!(entries_of(&parsed), vec![pair("key", "value")]);
}

#[test]
fn parse_hashmap_with_multi_character_separators() {
    let parsed = parse_hashmap("X-Test: 1\r\nServer: demo", "\r\n", ":");
    assert_eq!(entries_of(&parsed), vec![pair("X-Test", "1"), pair("Server", "demo")]);
}

#[test]
fn parse_hashmap_with_empty_entries_separator() {
    // every character is a piece of its own; only "=" holds the separator
    let parsed = parse_hashmap("a=b", "", "=");
    assert_eq!(entries_of(&parsed), vec![pair("", "")]);
}

#[test]
fn parse_hashmap_with_empty_key_value_separator() {
    // the empty separator occurs at the start of every piece
    let parsed = parse_hashmap("ab;c", ";", "");
    assert_eq!(entries_of(&parsed), vec![pair("", "c")]);
}

#[test]
fn insert_replaces_in_place() {
    let mut m = map_of(&[("a", "1"), ("b", "2"), ("c", "3")]);
    m.insert("b".to_string(), "20".to_string());
    assert_eq!(entries_of(&m), vec![pair("a", "1"), pair("b", "20"), pair("c", "3")]);
    assert!(m.contains_key("b"));
    assert!(!m.contains_key("B"));
    assert_eq!(m.get("missing"), None);
}

#[test]
fn extend_prefers_the_new_values() {
    let mut m = map_of(&[("a", "1"), ("b", "2")]);
    m.extend(map_of(&[("b", "3"), ("c", "4")]));
    assert_eq!(entries_of(&m), vec![pair("a", "1"), pair("b", "3"), pair("c", "4")]);
}

#[test]
fn equality_ignores_order() {
    let left = map_of(&[("a", "1"), ("b", "2")]);
    let right = map_of(&[("b", "2"), ("a", "1")]);
    assert!(left.same_as(&right));
    assert_eq!(left, right);
    assert_ne!(left, map_of(&[("a", "1")]));
    assert_ne!(left, map_of(&[("a", "1"), ("b", "3")]));
    assert_ne!(map_of(&[("a", "1")]), left);
}
