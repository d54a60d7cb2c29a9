use virtioz_core::ids::{new_agent_peer_id, new_router_peer_id, new_task_id, peer_id_from};
use virtioz_core::order::sort_strings;
use virtioz_core::strmap::{StrMap, StrSet};
use virtioz_core::text::{
    chars_of, contains, is_some_str, starts_with, str_eq, str_lt, string_or_empty,
};

fn is_lower_hex(s: &str) -> bool {
    s.chars().all(|c| c.is_ascii_digit() || ('a'..='f').contains(&c))
}

#[test]
fn prefixes() {
    assert!(starts_with("core_abc", "core_"));
    assert!(starts_with("core_", "core_"));
    assert!(!starts_with("core", "core_"));
    assert!(!starts_with("agent_1", "core_"));
    assert!(starts_with("anything", ""));
}

#[test]
fn substrings() {
    assert!(contains(r#"{"type":"stdin","task_id":"x"}"#, r#""type":"stdin""#));
    assert!(!contains(r#"{"type": "stdin"}"#, r#""type":"stdin""#));
    assert!(contains("abc", ""));
    assert!(!contains("", "a"));
    assert!(contains("aab", "ab"));
}

#[test]
fn lexicographic_order() {
    assert!(str_lt("a", "b"));
    assert!(str_lt("a", "ab"));
    assert!(!str_lt("ab", "a"));
    assert!(!str_lt("a", "a"));
    assert!(str_lt("Z", "a"));
    assert!(str_lt("z", "é"));
}

#[test]
fn equality_and_options() {
    assert!(str_eq("x", "x"));
    assert!(!str_eq("x", "y"));
    assert!(is_some_str(&Some("auth".to_string()), "auth"));
    assert!(!is_some_str(&None, "auth"));
    assert_eq!(string_or_empty(&None), "");
    assert_eq!(string_or_empty(&Some("p".to_string())), "p");
    assert_eq!(chars_of("hé!"), vec!['h', 'é', '!']);
}

#[test]
fn sorting_matches_std_order() {
    let v: Vec<String> = ["b", "a", "c", "a", "ab", "é", "Z"].iter().map(|s| s.to_string()).collect();
    let mut expected = v.clone();
    expected.sort();
    assert_eq!(sort_strings(v), expected);
    assert_eq!(sort_strings(vec![]), Vec::<String>::new());
}

#[test]
fn peer_ids() {
    let r = new_router_peer_id();
    assert!(r.starts_with("core_"));
    assert_eq!(r.len(), 13);
    assert!(is_lower_hex(&r[5..]));
    let a = new_agent_peer_id();
    assert!(a.starts_with("agent_"));
    assert_eq!(a.len(), 14);
    assert!(is_lower_hex(&a[6..]));
    assert_eq!(peer_id_from("core_", "0123456789abcdef0123456789abcdef"), "core_01234567");
}

#[test]
fn task_ids_are_simple_uuids() {
    let a = new_task_id();
    let b = new_task_id();
    assert_eq!(a.len(), 32);
    assert!(is_lower_hex(&a));
    assert_ne!(a, b);
}

#[test]
fn string_maps() {
    let mut m = StrMap::new();
    m.insert("a".to_string(), "1".to_string());
    m.insert("b".to_string(), "2".to_string());
    m.insert("a".to_string(), "3".to_string());
    assert_eq!(m.get(&"a".to_string()), Some("3".to_string()));
    assert_eq!(m.entries().len(), 2);
    m.remove(&"a".to_string());
    assert!(!m.contains_key(&"a".to_string()));
    assert!(m.contains_key(&"b".to_string()));
    m.remove(&"zz".to_string());
    assert_eq!(m.entries().len(), 1);
}

#[test]
fn string_sets() {
    let mut s = StrSet::new();
    s.insert("x".to_string());
    s.insert("x".to_string());
    assert!(s.contains(&"x".to_string()));
    s.remove(&"x".to_string());
    assert!(!s.contains(&"x".to_string()));
}
