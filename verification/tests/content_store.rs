use localview::content_addressed::{BaselineEnvelope, RegionMerkleNode, RuntimeObject, RuntimeObjectKind};
use localview::digest::canonical_hash;
use localview::content_store::ContentStore;
use serde_json::Value;
use sha2::{Digest, Sha256};

fn v(items: &[&str]) -> Vec<String> {
    items.iter().map(|s| s.to_string()).collect()
}

fn object(kind: RuntimeObjectKind, payload: &str, dependencies: Vec<String>) -> RuntimeObject {
    RuntimeObject {
        kind,
        schema_version: 1,
        payload: payload.to_string(),
        dependencies,
    }
}

fn serde_hash(value: &Value) -> String {
    let bytes = serde_json::to_vec(value).unwrap();
    format!("sha256:{}", hex::encode(Sha256::digest(bytes)))
}

fn strings(items: &[String]) -> Value {
    Value::Array(items.iter().map(|s| Value::String(s.clone())).collect())
}

fn optional(item: &Option<String>) -> Value {
    match item {
        Some(s) => Value::String(s.clone()),
        None => Value::Null,
    }
}

#[test]
fn store_deduplicates_and_gc_preserves_dependencies() {
    let mut store = ContentStore::default();
    let leaf = store.insert(object(RuntimeObjectKind::Semantic, "{\"node\":\"hero\"}", vec![]));
    let root = store.insert(object(RuntimeObjectKind::Proof, "{\"verdict\":\"pass\"}", vec![leaf.clone()]));
    store.insert(object(RuntimeObjectKind::Asset, "{\"unused\":true}", vec![]));
    assert_eq!(store.collect_garbage(&vec![root.clone()]), 1);
    assert!(store.get(&leaf).is_some());
}

#[test]
fn inserting_the_same_object_twice_stores_it_once() {
    let mut store = ContentStore::default();
    let first = store.insert(object(RuntimeObjectKind::Evidence, "{\"id\":\"ev_1\"}", v(&["b", "a"])));
    let second = store.insert(object(RuntimeObjectKind::Evidence, "{\"id\":\"ev_1\"}", v(&["a", "b", "a"])));
    assert_eq!(first, second);
    assert_eq!(store.len(), 1);
    assert_eq!(store.get(&first).unwrap().dependencies, v(&["a", "b"]));
    assert!(!store.is_empty());
    assert!(ContentStore::default().is_empty());
}

#[test]
fn object_hash_is_the_hash_of_its_canonical_json() {
    let o = object(RuntimeObjectKind::Baseline, "{\"a\":1,\"b\":[true,null]}", v(&["sha256:x", "q\"uote"]));
    let mut map = serde_json::Map::new();
    map.insert("kind".into(), Value::String("baseline".into()));
    map.insert("schema_version".into(), Value::from(1u32));
    map.insert("payload".into(), serde_json::from_str(&o.payload).unwrap());
    map.insert("dependencies".into(), strings(&o.dependencies));
    assert_eq!(o.hash(), serde_hash(&Value::Object(map)));
}

#[test]
fn region_root_hash_is_the_hash_of_its_canonical_json() {
    let node = RegionMerkleNode {
        region_id: "hero\n\"main\"\\\u{1}".into(),
        semantic_hash: Some("sha256:s".into()),
        layout_hash: None,
        visual_hash: Some("sha256:v".into()),
        children: v(&["sha256:c1", "sha256:c2"]),
    };
    let mut map = serde_json::Map::new();
    map.insert("region_id".into(), Value::String(node.region_id.clone()));
    map.insert("semantic_hash".into(), optional(&node.semantic_hash));
    map.insert("layout_hash".into(), optional(&node.layout_hash));
    map.insert("visual_hash".into(), optional(&node.visual_hash));
    map.insert("children".into(), strings(&node.children));
    assert_eq!(node.root_hash(), serde_hash(&Value::Object(map)));
    let mut other = node.clone();
    other.children = v(&["sha256:c2", "sha256:c1"]);
    assert_ne!(other.root_hash(), node.root_hash());
}

#[test]
fn dependency_closure_follows_stored_dependencies_only() {
    let mut store = ContentStore::default();
    let leaf = store.insert(object(RuntimeObjectKind::Layout, "1", vec![]));
    let mid = store.insert(object(RuntimeObjectKind::Region, "2", vec![leaf.clone(), "sha256:missing".into()]));
    let top = store.insert(object(RuntimeObjectKind::Report, "3", vec![mid.clone(), leaf.clone()]));
    let mut expected = vec![top.clone(), mid.clone(), leaf.clone(), "sha256:missing".to_string()];
    expected.sort();
    assert_eq!(store.dependency_closure(&top), expected);
    assert_eq!(store.dependency_closure("unknown"), v(&["unknown"]));
    assert_eq!(store.validate_dependencies(&mid), v(&["sha256:missing"]));
    assert_eq!(store.validate_dependencies(&top), Vec::<String>::new());
    assert_eq!(store.validate_dependencies("unknown"), v(&["unknown"]));
}

#[test]
fn collection_without_roots_empties_the_store() {
    let mut store = ContentStore::default();
    store.insert(object(RuntimeObjectKind::State, "1", vec![]));
    store.insert(object(RuntimeObjectKind::State, "2", vec![]));
    assert_eq!(store.collect_garbage(&vec![]), 2);
    assert!(store.is_empty());
}

#[test]
fn baseline_hash_is_reproducible_and_dependency_closure_is_exact() {
    let evidence = object(RuntimeObjectKind::Evidence, "{\"id\":\"ev_1\"}", vec![]);
    let mut store = ContentStore::default();
    let evidence_hash = store.insert(evidence);
    let envelope = BaselineEnvelope {
        schema_version: 1,
        state_identity: canonical_hash(b"{\"route\":\"/\"}"),
        route: "/".into(),
        viewport: (1280, 720),
        evidence_hashes: vec![evidence_hash.clone(), evidence_hash.clone()],
        design_baseline_hash: None,
        created_revision: Some("abc".into()),
        provenance: vec![("source".into(), "wave8-headless".into())],
    }
    .normalized();
    let first = envelope.canonical_hash();
    let second = envelope.clone().canonical_hash();
    assert_eq!(first, second);
    let root = store.insert(envelope.object());
    let mut expected = vec![root.clone(), evidence_hash];
    expected.sort();
    assert_eq!(store.dependency_closure(&root), expected);
}

fn envelope_value(e: &BaselineEnvelope) -> Value {
    let mut evidence = e.evidence_hashes.clone();
    evidence.sort();
    evidence.dedup();
    let mut provenance = serde_json::Map::new();
    for (k, v) in &e.provenance {
        provenance.insert(k.clone(), Value::String(v.clone()));
    }
    let mut map = serde_json::Map::new();
    map.insert("schema_version".into(), Value::from(e.schema_version));
    map.insert("state_identity".into(), Value::String(e.state_identity.clone()));
    map.insert("route".into(), Value::String(e.route.clone()));
    map.insert(
        "viewport".into(),
        Value::Array(vec![Value::from(e.viewport.0), Value::from(e.viewport.1)]),
    );
    map.insert("evidence_hashes".into(), strings(&evidence));
    map.insert("design_baseline_hash".into(), optional(&e.design_baseline_hash));
    map.insert("created_revision".into(), optional(&e.created_revision));
    map.insert("provenance".into(), Value::Object(provenance));
    Value::Object(map)
}

#[test]
fn baseline_object_payload_is_the_canonical_json_of_the_normalized_envelope() {
    let envelope = BaselineEnvelope {
        schema_version: 3,
        state_identity: "sha256:state".into(),
        route: "/cart?x=\"1\"".into(),
        viewport: (390, 844),
        evidence_hashes: v(&["sha256:b", "sha256:a", "sha256:b"]),
        design_baseline_hash: Some("sha256:design".into()),
        created_revision: None,
        provenance: vec![
            ("z".into(), "last".into()),
            ("a".into(), "first".into()),
            ("z".into(), "later".into()),
        ],
    };
    let o = envelope.object();
    let value = envelope_value(&envelope);
    assert_eq!(o.payload, serde_json::to_string(&value).unwrap());
    assert_eq!(o.dependencies, v(&["sha256:a", "sha256:b", "sha256:design"]));
    assert_eq!(o.schema_version, 3);
    let mut map = serde_json::Map::new();
    map.insert("kind".into(), Value::String("baseline".into()));
    map.insert("schema_version".into(), Value::from(3u32));
    map.insert("payload".into(), value);
    map.insert("dependencies".into(), strings(&o.dependencies));
    assert_eq!(envelope.canonical_hash(), serde_hash(&Value::Object(map)));
    let mut reordered = envelope.clone();
    reordered.evidence_hashes = v(&["sha256:a", "sha256:b"]);
    reordered.provenance = vec![("a".into(), "first".into()), ("z".into(), "later".into())];
    assert_eq!(reordered.canonical_hash(), envelope.canonical_hash());
}
