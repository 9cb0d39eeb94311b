use opendal::store::Store;
use opendal::ConfigMap;
use opendal::ErrorKind;
use opendal::Operator;
use opendal::RuntimeRegistry;
use opendal::Scheme;

#[test]
fn store_set_get_remove() {
    let mut s = Store::new();
    assert!(!s.contains("a"));
    s.set("a", vec![1u8, 2]);
    assert!(s.contains("a"));
    assert_eq!(s.get("a").unwrap(), &vec![1u8, 2]);
    s.set("a", vec![3u8]);
    assert_eq!(s.get("a").unwrap(), &vec![3u8]);
    s.remove("a");
    assert!(s.get("a").is_none());
    s.remove("a");
}

#[test]
fn store_keys_with_prefix() {
    let mut s = Store::new();
    s.set("x/1", vec![1u8]);
    s.set("x/2", vec![2u8]);
    s.set("y/1", vec![3u8]);
    let keys = s.keys_with_prefix("x/");
    assert_eq!(keys, vec![String::from("x/1"), String::from("x/2")]);
    assert_eq!(s.keys_with_prefix("z").len(), 0);
}

#[test]
fn config_map_empty_lookup() {
    let map = ConfigMap::new();
    assert!(map.get("anything").is_none());
    assert!(!map.contains_key("anything"));
}

#[test]
fn error_context_pairs_attached_in_order() {
    let map = ConfigMap::new();
    let mut reg = RuntimeRegistry::new();
    let op = Operator::via_map(Scheme::Memory, &map, &mut reg, None).unwrap();
    let e = op.read("nope").err().unwrap();
    assert_eq!(e.kind(), ErrorKind::NotFound);
    assert_eq!(e.message(), "path not found");
    let ctx = e.context();
    assert_eq!(ctx[0].0.as_str(), "operation");
    assert_eq!(ctx[0].1.as_str(), "read");
    assert_eq!(ctx[1].0.as_str(), "path");
    assert_eq!(ctx[1].1.as_str(), "nope");
    assert_eq!(ctx[2].0.as_str(), "service");
    assert_eq!(ctx[2].1.as_str(), "memory");
}
