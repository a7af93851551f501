use gdam::config::{Addon, Config, CONFIG_VERSION};

fn addon(name: &str, source: &str, checksum: &str) -> Addon {
    Addon {
        name: name.to_string(),
        version: String::new(),
        source: source.to_string(),
        checksum: checksum.to_string(),
    }
}

#[test]
fn new_manifest_is_empty() {
    let c = Config::new();
    assert_eq!(c.version, CONFIG_VERSION);
    assert_eq!(c.version, 1);
    assert!(c.addons.is_empty());
}

#[test]
fn upsert_replaces_and_moves_to_end() {
    let mut c = Config::new();
    c.upsert(addon("a", "s1", "c1"));
    c.upsert(addon("b", "s1", "c1"));
    c.upsert(addon("a", "s2", "c2"));
    assert_eq!(c.addons, vec![addon("b", "s1", "c1"), addon("a", "s2", "c2")]);
}

#[test]
fn remove_named_keeps_others_in_order() {
    let mut c = Config::new();
    c.addons = vec![addon("a", "s", "1"), addon("b", "s", "1"), addon("a", "t", "2"), addon("c", "s", "1")];
    c.remove_named(&"a".to_string());
    assert_eq!(c.addons, vec![addon("b", "s", "1"), addon("c", "s", "1")]);
}

#[test]
fn find_match_by_name_or_source_first_wins() {
    let mut c = Config::new();
    c.addons = vec![addon("x", "https://h/y", "1"), addon("y", "https://h/z", "1")];
    assert_eq!(c.find_match(&"https://h/y".to_string()), Some(0));
    assert_eq!(c.find_match(&"y".to_string()), Some(1));
    assert_eq!(c.find_match(&"nope".to_string()), None);
    assert_eq!(c.find_named(&"y".to_string()), Some(1));
    assert_eq!(c.find_named(&"https://h/y".to_string()), None);
}

#[test]
fn unique_names_check() {
    let mut c = Config::new();
    assert!(c.has_unique_names());
    c.addons = vec![addon("a", "s", "1"), addon("b", "s", "1")];
    assert!(c.has_unique_names());
    c.addons.push(addon("a", "t", "2"));
    assert!(!c.has_unique_names());
}

#[test]
fn default_manifest_matches_new() {
    let c = Config::default();
    assert_eq!(c, Config::new());
}
