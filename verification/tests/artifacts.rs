use localview::artifacts::{
    content_id, content_id_of_hash, is_content_id, order_restored, valid_canonical_hash, ArtifactMeta, ArtifactStore,
    GcStep, ProjectionError, RestoredEntry,
};

fn meta(id: &str, bytes: u64) -> ArtifactMeta {
    ArtifactMeta { id: id.into(), kind: "text".into(), bytes, path: format!("/store/{id}") }
}

#[test]
fn content_ids_have_the_physical_shape_and_are_stable() {
    let id = content_id(b"same");
    assert!(is_content_id(&id));
    assert_eq!(id, content_id(b"same"));
    assert_ne!(id, content_id(b"other"));
    assert!(!is_content_id("lv-0123"));
    assert!(!is_content_id("xx-0123456789abcdef"));
}

#[test]
fn canonical_hashes_are_sha256_digests() {
    assert!(valid_canonical_hash(&format!("sha256:{}", "a".repeat(64))));
    assert!(!valid_canonical_hash(&format!("sha256:{}", "a".repeat(63))));
    assert!(!valid_canonical_hash(&format!("sha1:{}", "a".repeat(64))));
    assert!(!valid_canonical_hash(&format!("sha256:{}", "g".repeat(64))));
}

#[test]
fn projection_evicts_oldest_first_and_refuses_what_cannot_fit() {
    let mut store = ArtifactStore::new("/store".into(), 10);
    store.record_stored(meta("a", 4));
    store.record_stored(meta("b", 4));
    assert_eq!(store.used_bytes(), 8);
    assert_eq!(store.projected_used_bytes_for(&"a".to_string(), 100), Ok(8));
    assert_eq!(store.projected_used_bytes_for(&"c".to_string(), 5), Ok(9));
    assert_eq!(
        store.projected_used_bytes_for(&"c".to_string(), 11),
        Err(ProjectionError::ExceedsLimit { incoming: 11, max_bytes: 10 })
    );
    assert_eq!(store.projected_used_bytes_after_put(b"0123456789"), Ok(10));
}

#[test]
fn garbage_collection_drops_stale_entries_and_evicts_until_within_limit() {
    let mut store = ArtifactStore::new("/store".into(), 5);
    store.record_stored(meta("a", 4));
    store.record_stored(meta("b", 4));
    match store.next_gc_step() {
        GcStep::Evict(m) => assert_eq!(m.id, "a"),
        other => panic!("unexpected {other:?}"),
    }
    store.record_evicted();
    assert_eq!(store.used_bytes(), 4);
    assert!(store.get(&"a".to_string()).is_none());
    assert!(matches!(store.next_gc_step(), GcStep::Done));
}

#[test]
fn restored_files_count_oldest_first_then_by_id() {
    let found = vec![
        RestoredEntry { modified_nanos: 5, meta: meta("lv-b", 1) },
        RestoredEntry { modified_nanos: 2, meta: meta("lv-z", 1) },
        RestoredEntry { modified_nanos: 5, meta: meta("lv-a", 1) },
    ];
    let ordered: Vec<String> = order_restored(&found).into_iter().map(|e| e.meta.id).collect();
    assert_eq!(ordered, vec!["lv-z".to_string(), "lv-a".to_string(), "lv-b".to_string()]);
    let mut store = ArtifactStore::new("/store".into(), 100);
    store.restore_existing(&found);
    assert_eq!(store.used_bytes(), 3);
    assert_eq!(store.eviction_order(), &vec!["lv-z".to_string(), "lv-a".to_string(), "lv-b".to_string()]);
}

#[test]
fn retained_kind_is_replaced_once_known() {
    let mut store = ArtifactStore::new("/store".into(), 100);
    store.record_stored(ArtifactMeta { kind: "retained".into(), ..meta("a", 1) });
    let adopted = store.adopt_existing(&"a".to_string(), &"visual/png".to_string()).unwrap();
    assert_eq!(adopted.kind, "visual/png");
    let again = store.adopt_existing(&"a".to_string(), &"text".to_string()).unwrap();
    assert_eq!(again.kind, "visual/png");
    assert!(store.adopt_existing(&"b".to_string(), &"text".to_string()).is_none());
}

fn collect(store: &mut ArtifactStore) {
    loop {
        match store.next_gc_step() {
            GcStep::Done => return,
            GcStep::DropStale => store.record_dropped(),
            GcStep::Evict(_) => store.record_evicted(),
        }
    }
}

#[test]
fn projected_usage_is_the_usage_after_put_and_collection() {
    let mut store = ArtifactStore::new("/store".into(), 10);
    store.record_stored(meta("a", 3));
    store.record_stored(meta("b", 4));
    store.record_stored(meta("c", 2));
    let projected = store.projected_used_bytes_for(&"d".to_string(), 6).unwrap();
    store.record_stored(meta("d", 6));
    collect(&mut store);
    assert_eq!(store.used_bytes(), projected);
    assert_eq!(projected, 8);
    assert_eq!(store.eviction_order(), &vec!["c".to_string(), "d".to_string()]);
    assert_eq!(
        store.projected_used_bytes_for(&"e".to_string(), 10),
        Ok(10)
    );
}

#[test]
fn reads_make_an_artifact_the_most_recently_used() {
    let mut store = ArtifactStore::new("/store".into(), 8);
    store.record_stored(meta("a", 4));
    store.record_stored(meta("b", 4));
    store.record_read(&"a".to_string());
    assert_eq!(store.eviction_order(), &vec!["b".to_string(), "a".to_string()]);
    store.record_read(&"missing".to_string());
    assert_eq!(store.eviction_order(), &vec!["b".to_string(), "a".to_string()]);
    store.record_stored(meta("c", 4));
    collect(&mut store);
    assert!(store.get(&"b".to_string()).is_none());
    assert!(store.get(&"a".to_string()).is_some());
    assert_eq!(store.used_bytes(), 8);
}

#[test]
fn content_id_of_hash_writes_sixteen_lower_hex_digits_most_significant_first() {
    assert_eq!(content_id_of_hash(0x0123_4567_89ab_cdef), "lv-0123456789abcdef");
    assert_eq!(content_id_of_hash(255), "lv-00000000000000ff");
    assert_eq!(content_id_of_hash(u64::MAX), "lv-ffffffffffffffff");
    assert_eq!(content_id_of_hash(0), "lv-0000000000000000");
}

#[test]
fn a_store_ends_at_its_projection_and_a_repeated_put_is_free() {
    let mut store = ArtifactStore::new("/store".into(), 10);
    store.record_stored(meta("lv-000000000000000a", 6));
    let incoming = meta("lv-000000000000000b", 7);
    let projected = store.projected_used_bytes_for(&incoming.id, 7).unwrap();
    store.record_stored(incoming.clone());
    loop {
        match store.next_gc_step() {
            GcStep::Done => break,
            GcStep::DropStale => store.record_dropped(),
            GcStep::Evict(_) => store.record_evicted(),
        }
    }
    assert_eq!(store.used_bytes(), projected);
    assert_eq!(store.used_bytes(), 7);
    assert_eq!(store.max_bytes(), 10);
    assert_eq!(store.projected_used_bytes_for(&incoming.id, 7), Ok(7));
}
