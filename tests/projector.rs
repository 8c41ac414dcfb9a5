use std::collections::HashMap;

use projector::path::ancestor_dirs;
use projector::projector::{Data, Projector};

fn get_data() -> Data {
    let mut data = Data::new();
    data.set("/", "foo", "bar1");
    data.set("/", "fem", "is_great");
    data.set("/foo", "foo", "bar2");
    data.set("/foo/bar", "foo", "bar3");
    data
}

fn get_projector(pwd: &str) -> Projector {
    Projector::from_config(String::new(), pwd.to_string(), Some(get_data()))
}

fn as_hash(pairs: Vec<(String, String)>) -> HashMap<String, String> {
    let n = pairs.len();
    let m: HashMap<String, String> = pairs.into_iter().collect();
    assert_eq!(m.len(), n);
    m
}

fn strings(pairs: &[(&str, &str)]) -> HashMap<String, String> {
    pairs
        .iter()
        .map(|(k, v)| (k.to_string(), v.to_string()))
        .collect()
}

#[test]
fn test_get_value() {
    let proj = get_projector("/");
    assert_eq!(proj.get_value("foo"), Some(&"bar1".to_string()));
    assert_eq!(proj.get_value("fem"), Some(&"is_great".to_string()));

    let proj = get_projector("/foo");
    assert_eq!(proj.get_value("foo"), Some(&"bar2".to_string()));
    assert_eq!(proj.get_value("fem"), Some(&"is_great".to_string()));

    let proj = get_projector("/foo/bar");
    assert_eq!(proj.get_value("foo"), Some(&"bar3".to_string()));
}

#[test]
fn test_set_value() {
    let mut proj = get_projector("/foo/bar");
    assert_eq!(proj.get_value("foo"), Some(&"bar3".to_string()));

    proj.set_value("foo", "baz");
    assert_eq!(proj.get_value("foo"), Some(&"baz".to_string()));

    proj.set_value("fem", "is_super_great");
    assert_eq!(proj.get_value("fem"), Some(&"is_super_great".to_string()));
}

#[test]
fn test_remove_value() {
    let mut proj = get_projector("/foo/bar");
    assert_eq!(proj.get_value("foo"), Some(&"bar3".to_string()));

    proj.remove_value("foo");
    assert_eq!(proj.get_value("foo"), Some(&"bar2".to_string()));

    proj.remove_value("fem");
    assert_eq!(proj.get_value("fem"), Some(&"is_great".to_string()));
}

#[test]
fn unbound_key_is_not_found() {
    for pwd in ["/", "/foo", "/foo/bar", "/elsewhere/deep"] {
        assert_eq!(get_projector(pwd).get_value("missing"), None);
    }
    let empty = Projector::from_config(String::new(), "/a/b".to_string(), None);
    assert_eq!(empty.get_value("foo"), None);
    assert!(empty.get_value_all().is_empty());
}

fn shadowing_data() -> Data {
    let mut data = Data::new();
    data.set("/", "k", "a");
    data.set("/x", "k", "b");
    data
}

#[test]
fn nearest_binding_shadows() {
    let at = |pwd: &str| Projector::from_config(String::new(), pwd.to_string(), Some(shadowing_data()));
    assert_eq!(at("/x").get_value("k"), Some(&"b".to_string()));
    assert_eq!(at("/x/y").get_value("k"), Some(&"b".to_string()));
    assert_eq!(at("/").get_value("k"), Some(&"a".to_string()));
}

#[test]
fn merge_keeps_far_keys_and_nearest_values() {
    let mut data = Data::new();
    data.set("/", "a", "1");
    data.set("/", "b", "2");
    data.set("/x", "b", "3");
    let proj = Projector::from_config(String::new(), "/x/y".to_string(), Some(data));
    assert_eq!(
        as_hash(proj.get_value_all()),
        strings(&[("a", "1"), ("b", "3")])
    );
}

#[test]
fn merge_over_sample_data() {
    assert_eq!(
        as_hash(get_projector("/foo/bar/baz").get_value_all()),
        strings(&[("foo", "bar3"), ("fem", "is_great")])
    );
    assert_eq!(
        as_hash(get_projector("/").get_value_all()),
        strings(&[("foo", "bar1"), ("fem", "is_great")])
    );
}

#[test]
fn set_is_local() {
    let mut at_x = Projector::from_config(String::new(), "/x".to_string(), Some(shadowing_data()));
    at_x.set_value("n", "v");
    let data = at_x.data();
    let entries = data.entries();
    let mut rebuilt = Data::new();
    for (dir, bucket) in entries {
        for (k, v) in bucket {
            rebuilt.set(dir, k, v);
        }
    }
    let at_root = Projector::from_config(String::new(), "/".to_string(), Some(rebuilt));
    assert_eq!(at_root.get_value("n"), None);
    assert_eq!(as_hash(at_root.get_value_all()), strings(&[("k", "a")]));
    assert_eq!(at_x.get_value("n"), Some(&"v".to_string()));
}

#[test]
fn set_makes_missing_bucket() {
    let mut proj = Projector::from_config(String::new(), "/new/dir".to_string(), None);
    proj.set_value("k", "v");
    assert_eq!(proj.get_value("k"), Some(&"v".to_string()));
    assert_eq!(proj.data().entries().len(), 1);
    proj.set_value("k", "w");
    assert_eq!(proj.get_value("k"), Some(&"w".to_string()));
    assert_eq!(proj.data().entries()[0].1.len(), 1);
}

#[test]
fn remove_is_local_and_idempotent() {
    let mut proj = get_projector("/foo");
    proj.remove_value("missing");
    assert_eq!(
        as_hash(proj.get_value_all()),
        strings(&[("foo", "bar2"), ("fem", "is_great")])
    );
    proj.remove_value("foo");
    let once = as_hash(proj.get_value_all());
    proj.remove_value("foo");
    assert_eq!(as_hash(proj.get_value_all()), once);
    assert_eq!(once, strings(&[("foo", "bar1"), ("fem", "is_great")]));

    let mut bare = get_projector("/nothing/here");
    bare.remove_value("foo");
    assert_eq!(bare.data().entries().len(), 3);
    assert_eq!(bare.get_value("foo"), Some(&"bar1".to_string()));
}

#[test]
fn missing_or_corrupt_store_loads_empty() {
    let proj = Projector::from_config("/no/such/file.json".to_string(), "/foo".to_string(), None);
    assert_eq!(proj.config(), "/no/such/file.json");
    assert_eq!(proj.pwd(), "/foo");
    assert!(proj.data().entries().is_empty());
    assert!(proj.get_value_all().is_empty());
}

#[test]
fn root_has_no_parent() {
    assert_eq!(ancestor_dirs("/"), vec!["/".to_string()]);
    assert_eq!(
        ancestor_dirs("/foo/bar"),
        vec!["/foo/bar".to_string(), "/foo".to_string(), "/".to_string()]
    );
    let proj = get_projector("/");
    assert_eq!(proj.get_value("foo"), Some(&"bar1".to_string()));
    assert_eq!(
        as_hash(proj.get_value_all()),
        strings(&[("foo", "bar1"), ("fem", "is_great")])
    );
}

#[test]
fn default_data_is_empty() {
    let d: Data = Default::default();
    assert!(d.entries().is_empty());
}
