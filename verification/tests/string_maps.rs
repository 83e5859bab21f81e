use hookd::string_map::{is_listed, StringMap};

fn text(s: &str) -> String {
    s.to_string()
}

fn sorted(map: &StringMap) -> Vec<(String, String)> {
    let mut pairs = map.entries();
    pairs.sort();
    pairs
}

#[test]
fn a_new_map_is_empty() {
    let map = StringMap::new();
    assert!(map.entries().is_empty());
    assert_eq!(map.get(&text("A")), None);
}

#[test]
fn insert_adds_an_entry() {
    let mut map = StringMap::new();
    map.insert(text("A"), text("1"));
    map.insert(text("B"), text("2"));
    assert_eq!(map.get(&text("A")), Some(&text("1")));
    assert_eq!(map.get(&text("B")), Some(&text("2")));
    assert_eq!(map.get(&text("C")), None);
    assert_eq!(sorted(&map), vec![(text("A"), text("1")), (text("B"), text("2"))]);
}

#[test]
fn insert_replaces_the_value_of_a_key() {
    let mut map = StringMap::new();
    map.insert(text("A"), text("1"));
    map.insert(text("B"), text("2"));
    map.insert(text("A"), text("3"));
    assert_eq!(map.get(&text("A")), Some(&text("3")));
    assert_eq!(sorted(&map), vec![(text("A"), text("3")), (text("B"), text("2"))]);
}

#[test]
fn keys_differ_by_case_and_length() {
    let mut map = StringMap::new();
    map.insert(text("a"), text("1"));
    map.insert(text("A"), text("2"));
    map.insert(text(""), text("3"));
    map.insert(text("aa"), text("4"));
    assert_eq!(map.entries().len(), 4);
    assert_eq!(map.get(&text("")), Some(&text("3")));
}

#[test]
fn retain_keeps_the_listed_keys() {
    let mut map = StringMap::new();
    map.insert(text("A"), text("1"));
    map.insert(text("B"), text("2"));
    map.insert(text("C"), text("3"));
    map.retain_keys(&[text("C"), text("A"), text("Z")]);
    assert_eq!(sorted(&map), vec![(text("A"), text("1")), (text("C"), text("3"))]);
    assert_eq!(map.get(&text("B")), None);
}

#[test]
fn retain_with_no_keys_empties_the_map() {
    let mut map = StringMap::new();
    map.insert(text("A"), text("1"));
    map.retain_keys(&[]);
    assert!(map.entries().is_empty());
}

#[test]
fn retain_twice_is_retain_once() {
    let mut map = StringMap::new();
    map.insert(text("A"), text("1"));
    map.insert(text("B"), text("2"));
    let allowed = [text("B")];
    map.retain_keys(&allowed);
    let once = sorted(&map);
    map.retain_keys(&allowed);
    assert_eq!(sorted(&map), once);
}

#[test]
fn a_clone_holds_the_same_entries() {
    let mut map = StringMap::new();
    map.insert(text("A"), text("1"));
    map.insert(text("B"), text("2"));
    let mut copy = map.clone();
    assert_eq!(sorted(&copy), sorted(&map));
    copy.insert(text("A"), text("9"));
    assert_eq!(map.get(&text("A")), Some(&text("1")));
}

#[test]
fn listed_keys_are_found() {
    let keys = [text("PATH"), text("HOME")];
    assert!(is_listed(&keys, &text("HOME")));
    assert!(is_listed(&keys, &text("PATH")));
    assert!(!is_listed(&keys, &text("home")));
    assert!(!is_listed(&[], &text("HOME")));
}

#[test]
fn maps_with_the_same_entries_are_equal() {
    let mut one = StringMap::new();
    one.insert(text("A"), text("1"));
    one.insert(text("B"), text("2"));
    let mut other = StringMap::new();
    other.insert(text("B"), text("2"));
    other.insert(text("A"), text("0"));
    other.insert(text("A"), text("1"));
    assert_eq!(one, other);
    assert_eq!(StringMap::new(), StringMap::new());
}

#[test]
fn maps_with_different_entries_are_not_equal() {
    let mut one = StringMap::new();
    one.insert(text("A"), text("1"));
    let mut other = StringMap::new();
    other.insert(text("A"), text("2"));
    assert_ne!(one, other);
    assert_ne!(one, StringMap::new());
    assert_ne!(StringMap::new(), one);
    other.insert(text("A"), text("1"));
    other.insert(text("B"), text("1"));
    assert_ne!(one, other);
    assert_ne!(other, one);
}
