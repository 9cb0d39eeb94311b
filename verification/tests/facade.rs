use opendal::services::Fs;
use opendal::services::Memory;
use opendal::ConfigMap;
use opendal::ErrorKind;
use opendal::Layer;
use opendal::Operator;
use opendal::RuntimeRegistry;
use opendal::Scheme;

#[test]
fn via_map_unknown_scheme_is_unsupported() {
    let map = ConfigMap::new();
    let mut reg = RuntimeRegistry::new();
    let r = Operator::via_map(Scheme::S3, &map, &mut reg, None);
    let e = r.err().unwrap();
    assert_eq!(e.kind(), ErrorKind::Unsupported);
    assert!(e.has_context("scheme", "s3"));
    assert_eq!(reg.created(), 0);
}

#[test]
fn via_map_every_disabled_scheme_fails() {
    for scheme in [Scheme::Azblob, Scheme::Gcs, Scheme::Http, Scheme::Redis, Scheme::Webdav] {
        let map = ConfigMap::new();
        let mut reg = RuntimeRegistry::new();
        let e = Operator::via_map(scheme, &map, &mut reg, None).err().unwrap();
        assert_eq!(e.kind(), ErrorKind::Unsupported);
        assert!(e.has_context("scheme", scheme.name()));
    }
}

#[test]
fn via_map_memory_round_trip() {
    let map = ConfigMap::new();
    let mut reg = RuntimeRegistry::new();
    let op = Operator::via_map(Scheme::Memory, &map, &mut reg, None).unwrap();
    op.write("test", vec![1u8, 2, 3, 4]).unwrap();
    let back = op.read("test").unwrap();
    assert_eq!(back, vec![1u8, 2, 3, 4]);
}

#[test]
fn via_map_fs_needs_root() {
    let map = ConfigMap::new();
    let mut reg = RuntimeRegistry::new();
    let e = Operator::via_map(Scheme::Fs, &map, &mut reg, None).err().unwrap();
    assert_eq!(e.kind(), ErrorKind::ConfigInvalid);
    assert_eq!(reg.created(), 0);
}

#[test]
fn from_map_fs_write_then_stat() {
    let mut map = ConfigMap::new();
    map.insert("root", "/tmp");
    let mut reg = RuntimeRegistry::new();
    let op = Operator::from_map::<Fs>(&map).unwrap().finish(&mut reg, None);
    let bytes = vec![9u8, 8, 7, 6, 5];
    op.write("a/b", bytes.clone()).unwrap();
    let md = op.stat("a/b").unwrap();
    assert_eq!(md.content_length, bytes.len());
}

#[test]
fn fs_rejects_relative_root() {
    let mut map = ConfigMap::new();
    map.insert("root", "tmp/data");
    let r = Operator::from_map::<Fs>(&map);
    let e = r.err().unwrap();
    assert_eq!(e.kind(), ErrorKind::ConfigInvalid);
}

#[test]
fn builder_api_fs_root() {
    let mut builder = Fs::default();
    builder.root("/tmp");
    let mut reg = RuntimeRegistry::new();
    let op = Operator::new(builder).unwrap().finish(&mut reg, None);
    op.write("x", vec![1u8]).unwrap();
    assert_eq!(op.read("x").unwrap(), vec![1u8]);
}

#[test]
fn builder_api_fs_without_root_fails() {
    let builder = Fs::default();
    let e = Operator::new(builder).err().unwrap();
    assert_eq!(e.kind(), ErrorKind::ConfigInvalid);
}

#[test]
fn error_context_attached_innermost() {
    let map = ConfigMap::new();
    let mut reg = RuntimeRegistry::new();
    let op = Operator::via_map(Scheme::Memory, &map, &mut reg, None).unwrap();
    let e = op.read("missing").err().unwrap();
    assert_eq!(e.kind(), ErrorKind::NotFound);
    assert!(e.has_context("operation", "read"));
    assert!(e.has_context("path", "missing"));
    assert!(e.has_context("service", "memory"));
}

#[test]
fn fail_layer_dominates_and_keeps_inner_context() {
    let map = ConfigMap::new();
    let mut reg = RuntimeRegistry::new();
    let ob = Operator::from_map::<Memory>(&map).unwrap();
    let ob = ob.layer(Layer::Fail {
        kind: ErrorKind::PermissionDenied,
        message: String::from("injected"),
    });
    let op = ob.finish(&mut reg, None);
    // The inner instance fails (absent path), so the injected failure still
    // carries the context the error-context layer had attached.
    let e = op.read("absent").err().unwrap();
    assert_eq!(e.kind(), ErrorKind::PermissionDenied);
    assert_eq!(e.message(), "injected");
    assert!(e.has_context("operation", "read"));
    assert!(e.has_context("path", "absent"));
    assert!(e.has_context("service", "memory"));
    // The inner instance would have succeeded, yet the operation still
    // fails with the injected classification.
    let e2 = op.write("anything", vec![0u8]).err().unwrap();
    assert_eq!(e2.kind(), ErrorKind::PermissionDenied);
}

#[test]
fn fail_layer_other_kinds_surface() {
    for kind in [ErrorKind::AlreadyExists, ErrorKind::Unexpected, ErrorKind::Unsupported] {
        let map = ConfigMap::new();
        let mut reg = RuntimeRegistry::new();
        let op = Operator::from_map::<Memory>(&map)
            .unwrap()
            .layer(Layer::Fail { kind, message: String::from("boom") })
            .finish(&mut reg, None);
        assert_eq!(op.delete("p").err().unwrap().kind(), kind);
    }
}

#[test]
fn annotate_layer_enriches_failures() {
    let map = ConfigMap::new();
    let mut reg = RuntimeRegistry::new();
    let op = Operator::from_map::<Memory>(&map)
        .unwrap()
        .layer(Layer::Annotate { key: String::from("tenant"), value: String::from("alpha") })
        .finish(&mut reg, None);
    let e = op.read("gone").err().unwrap();
    assert_eq!(e.kind(), ErrorKind::NotFound);
    assert!(e.has_context("tenant", "alpha"));
    assert!(e.has_context("operation", "read"));
    assert!(op.write("k", vec![3u8]).is_ok());
}

#[test]
fn noop_layer_delegates_untouched() {
    let map = ConfigMap::new();
    let mut reg = RuntimeRegistry::new();
    let op = Operator::from_map::<Memory>(&map)
        .unwrap()
        .layer(Layer::Noop)
        .finish(&mut reg, None);
    op.write("k", vec![1u8, 2]).unwrap();
    assert_eq!(op.read("k").unwrap(), vec![1u8, 2]);
}

#[test]
fn dynamic_layer_after_erasure() {
    let map = ConfigMap::new();
    let mut reg = RuntimeRegistry::new();
    let op = Operator::via_map(Scheme::Memory, &map, &mut reg, None).unwrap();
    op.write("k", vec![5u8]).unwrap();
    let op = op.layer(Layer::Fail { kind: ErrorKind::Unexpected, message: String::from("down") });
    let e = op.read("k").err().unwrap();
    assert_eq!(e.kind(), ErrorKind::Unexpected);
}

#[test]
fn clones_share_state_and_agree() {
    let map = ConfigMap::new();
    let mut reg = RuntimeRegistry::new();
    let op = Operator::via_map(Scheme::Memory, &map, &mut reg, None).unwrap();
    let op2 = op.clone();
    op.write("shared", vec![42u8, 43]).unwrap();
    // The clone observes the write made through the original handle.
    assert_eq!(op2.read("shared").unwrap(), vec![42u8, 43]);
    // The same operation on both clones yields identical results.
    assert_eq!(op.read("shared").unwrap(), op2.read("shared").unwrap());
    assert_eq!(
        op.stat("shared").unwrap().content_length,
        op2.stat("shared").unwrap().content_length
    );
}

#[test]
fn scheduler_created_once_for_synchronous_callers() {
    let mut reg = RuntimeRegistry::new();
    assert_eq!(reg.created(), 0);
    let map = ConfigMap::new();
    let op1 = Operator::from_map::<Memory>(&map).unwrap().finish(&mut reg, None);
    assert_eq!(reg.created(), 1);
    let op2 = Operator::from_map::<Memory>(&map).unwrap().finish(&mut reg, None);
    assert_eq!(reg.created(), 1);
    assert_eq!(op1.scheduler(), op2.scheduler());
}

#[test]
fn ambient_scheduler_is_reused_not_created() {
    let mut reg = RuntimeRegistry::new();
    let map = ConfigMap::new();
    let op = Operator::from_map::<Memory>(&map).unwrap().finish(&mut reg, Some(42));
    assert_eq!(reg.created(), 0);
    assert_eq!(op.scheduler(), 42);
    // A later synchronous caller still gets the shared scheduler, created
    // at that point and only then.
    let op2 = Operator::from_map::<Memory>(&map).unwrap().finish(&mut reg, None);
    assert_eq!(reg.created(), 1);
    let op3 = Operator::from_map::<Memory>(&map).unwrap().finish(&mut reg, None);
    assert_eq!(reg.created(), 1);
    assert_eq!(op2.scheduler(), op3.scheduler());
}

#[test]
fn delete_is_idempotent() {
    let map = ConfigMap::new();
    let mut reg = RuntimeRegistry::new();
    let op = Operator::via_map(Scheme::Memory, &map, &mut reg, None).unwrap();
    op.write("k", vec![1u8]).unwrap();
    op.delete("k").unwrap();
    assert!(op.read("k").is_err());
    op.delete("k").unwrap();
}

#[test]
fn stat_missing_is_not_found() {
    let map = ConfigMap::new();
    let mut reg = RuntimeRegistry::new();
    let op = Operator::via_map(Scheme::Memory, &map, &mut reg, None).unwrap();
    let e = op.stat("none").err().unwrap();
    assert_eq!(e.kind(), ErrorKind::NotFound);
    assert!(e.has_context("operation", "stat"));
}

#[test]
fn list_returns_paths_under_prefix() {
    let map = ConfigMap::new();
    let mut reg = RuntimeRegistry::new();
    let op = Operator::via_map(Scheme::Memory, &map, &mut reg, None).unwrap();
    op.write("dir/a", vec![1u8]).unwrap();
    op.write("dir/b", vec![2u8]).unwrap();
    op.write("other", vec![3u8]).unwrap();
    let mut keys = op.list("dir/").unwrap();
    keys.sort();
    assert_eq!(keys, vec![String::from("dir/a"), String::from("dir/b")]);
    let all = op.list("").unwrap();
    assert_eq!(all.len(), 3);
}

#[test]
fn copy_duplicates_and_rename_moves() {
    let map = ConfigMap::new();
    let mut reg = RuntimeRegistry::new();
    let op = Operator::via_map(Scheme::Memory, &map, &mut reg, None).unwrap();
    op.write("src", vec![7u8, 7]).unwrap();
    op.copy("src", "dst").unwrap();
    assert_eq!(op.read("src").unwrap(), vec![7u8, 7]);
    assert_eq!(op.read("dst").unwrap(), vec![7u8, 7]);
    op.rename("dst", "moved").unwrap();
    assert!(op.read("dst").is_err());
    assert_eq!(op.read("moved").unwrap(), vec![7u8, 7]);
    let e = op.copy("gone", "x").err().unwrap();
    assert_eq!(e.kind(), ErrorKind::NotFound);
    let e = op.rename("gone", "x").err().unwrap();
    assert_eq!(e.kind(), ErrorKind::NotFound);
}

#[test]
fn rename_onto_itself_keeps_the_entry() {
    let map = ConfigMap::new();
    let mut reg = RuntimeRegistry::new();
    let op = Operator::via_map(Scheme::Memory, &map, &mut reg, None).unwrap();
    op.write("here", vec![1u8, 2, 3]).unwrap();
    op.rename("here", "here").unwrap();
    assert_eq!(op.read("here").unwrap(), vec![1u8, 2, 3]);
}

#[test]
fn overwrite_replaces_content() {
    let map = ConfigMap::new();
    let mut reg = RuntimeRegistry::new();
    let op = Operator::via_map(Scheme::Memory, &map, &mut reg, None).unwrap();
    op.write("k", vec![1u8]).unwrap();
    op.write("k", vec![2u8, 2]).unwrap();
    assert_eq!(op.read("k").unwrap(), vec![2u8, 2]);
    assert_eq!(op.stat("k").unwrap().content_length, 2);
}

#[test]
fn config_map_last_insert_wins() {
    let mut map = ConfigMap::new();
    map.insert("root", "/a");
    map.insert("root", "/b");
    assert_eq!(map.get("root").unwrap().as_str(), "/b");
    assert!(map.get("other").is_none());
    assert!(map.contains_key("root"));
}

#[test]
fn scheme_names_and_registry() {
    assert_eq!(Scheme::Memory.name(), "memory");
    assert_eq!(Scheme::Fs.name(), "fs");
    assert_eq!(Scheme::S3.name(), "s3");
    assert!(Scheme::Memory.enabled());
    assert!(Scheme::Fs.enabled());
    assert!(!Scheme::S3.enabled());
    assert!(!Scheme::Http.enabled());
}

#[test]
fn write_context_on_injected_write_failure() {
    let map = ConfigMap::new();
    let mut reg = RuntimeRegistry::new();
    let op = Operator::from_map::<Memory>(&map)
        .unwrap()
        .layer(Layer::Fail { kind: ErrorKind::Unexpected, message: String::from("io") })
        .finish(&mut reg, None);
    let e = op.write("k", vec![1u8]).err().unwrap();
    // The inner instance accepted the write, so no context was attached
    // below the injecting layer; the classification is still its own.
    assert_eq!(e.kind(), ErrorKind::Unexpected);
    assert_eq!(e.message(), "io");
}
