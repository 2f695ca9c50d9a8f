use abgen_serve::bundle::{
    build_flags, build_outcome, bundle_key, bundle_lock_key, has_convertible_ext, is_convertible,
    manifest_key, manifest_key_for_bundle, resolve_bundle, BuildOutcome, BundleTarget,
    ContentItem,
};
use abgen_serve::index::{scene_pairs, HashIndex};

fn item(file: &str, hash: &str) -> ContentItem {
    ContentItem { file: file.to_string(), hash: hash.to_string() }
}

#[test]
fn convertible_kinds() {
    assert_eq!(is_convertible("models/Tree.GLB"), (true, false));
    assert_eq!(is_convertible("scene.gltf"), (true, false));
    assert_eq!(is_convertible("tex/Bark.JPeG"), (false, true));
    assert_eq!(is_convertible("a.png"), (false, true));
    assert_eq!(is_convertible("script.js"), (false, false));
    assert_eq!(is_convertible("glb"), (false, false));
    assert!(has_convertible_ext("X.JPG"));
    assert!(!has_convertible_ext("main.crdt"));
}

#[test]
fn index_first_writer_wins() {
    let mut idx = HashIndex::new();
    assert!(idx.insert_if_absent("h1", "e1"));
    assert!(!idx.insert_if_absent("h1", "e2"));
    assert_eq!(idx.get("h1"), Some("e1".to_string()));
    assert_eq!(idx.get("h2"), None);
}

#[test]
fn index_lookup_lowercases_hash() {
    let mut idx = HashIndex::new();
    idx.index_entity(&vec!["QmABC".to_string(), "bafyx".to_string()], "scene1");
    assert_eq!(idx.entity_for_hash("QMabc"), Some("scene1".to_string()));
    assert_eq!(idx.entity_for_hash("BAFYX"), Some("scene1".to_string()));
    idx.index_entity(&vec!["qmabc".to_string()], "scene2");
    assert_eq!(idx.entity_for_hash("qmabc"), Some("scene1".to_string()));
}

#[test]
fn merge_pairs_counts_new_keys() {
    let mut idx = HashIndex::new();
    idx.insert_if_absent("a", "x");
    let pairs = vec![
        ("a".to_string(), "y".to_string()),
        ("b".to_string(), "y".to_string()),
        ("b".to_string(), "z".to_string()),
        ("c".to_string(), "z".to_string()),
    ];
    assert_eq!(idx.merge_pairs(&pairs), 2);
    assert_eq!(idx.get("a"), Some("x".to_string()));
    assert_eq!(idx.get("b"), Some("y".to_string()));
    assert_eq!(idx.get("c"), Some("z".to_string()));
    assert_eq!(idx.merge_pairs(&pairs), 0);
}

#[test]
fn scene_pairs_lowercase_hashes() {
    let pairs = scene_pairs(&vec!["AbC".to_string(), "ÉX".to_string()], "ent");
    assert_eq!(pairs, vec![("abc".to_string(), "ent".to_string()), ("éx".to_string(), "ent".to_string())]);
}

#[test]
fn resolve_bundle_finds_item() {
    let items = vec![item("main.crdt", "h0"), item("Tree.glb", "HashT"), item("tree2.glb", "hasht")];
    let idx = HashIndex::new();
    match resolve_bundle(&items, "scene", &idx, "hasht_windows") {
        BundleTarget::Content { index, platform, is_glb, is_image } => {
            assert_eq!(index, 1);
            assert_eq!(platform, "windows");
            assert!(is_glb && !is_image);
        }
        _ => panic!("expected content"),
    }
}

#[test]
fn resolve_bundle_uses_last_underscore() {
    let items = vec![item("a.png", "my_hash")];
    let idx = HashIndex::new();
    match resolve_bundle(&items, "scene", &idx, "my_hash_webgl") {
        BundleTarget::Content { index, platform, .. } => {
            assert_eq!(index, 0);
            assert_eq!(platform, "webgl");
        }
        _ => panic!("expected content"),
    }
}

#[test]
fn resolve_bundle_errors() {
    let items = vec![item("main.crdt", "h0")];
    let idx = HashIndex::new();
    assert!(matches!(resolve_bundle(&items, "scene", &idx, "noplatform"), BundleTarget::MissingPlatform));
    assert!(matches!(resolve_bundle(&items, "scene", &idx, "H0_mac"), BundleTarget::NotConvertible { index: 0 }));
    match resolve_bundle(&items, "scene", &idx, "zz_mac") {
        BundleTarget::HashNotInEntity { hash } => assert_eq!(hash, "zz"),
        _ => panic!("expected hash not in entity"),
    }
}

#[test]
fn resolve_bundle_redirects_to_owner() {
    let items = vec![item("a.png", "h0")];
    let mut idx = HashIndex::new();
    idx.insert_if_absent("shared", "OtherScene");
    idx.insert_if_absent("mine", "scene");
    match resolve_bundle(&items, "scene", &idx, "SHARED_webgl") {
        BundleTarget::Owner(o) => assert_eq!(o, "OtherScene"),
        _ => panic!("expected owner"),
    }
    assert!(matches!(resolve_bundle(&items, "SCENE", &idx, "mine_webgl"), BundleTarget::HashNotInEntity { .. }));
}

#[test]
fn flags_for_image_and_model() {
    let img = build_flags(false, true, true, true, false, "");
    assert!(!img.wants_metadata_deps && img.model_referenced && !img.standalone_normal);
    assert_eq!(img.standalone_color_space, Some(0));
    assert_eq!(img.entity_type, None);
    let srgb = build_flags(false, true, false, false, true, "scene");
    assert_eq!(srgb.standalone_color_space, Some(1));
    assert!(srgb.standalone_normal && !srgb.model_referenced);
    assert_eq!(srgb.entity_type, Some("scene".to_string()));
    let model = build_flags(true, false, true, true, true, "wearable");
    assert!(model.wants_metadata_deps && !model.model_referenced && !model.standalone_normal);
    assert_eq!(model.standalone_color_space, None);
}

#[test]
fn outcome_labels() {
    assert_eq!(build_outcome(&Ok(42)), (BuildOutcome::Succeeded, 42));
    assert_eq!(build_outcome(&Err("panic: boom".to_string())), (BuildOutcome::PanicRecovered, 0));
    assert_eq!(build_outcome(&Err("bad glb".to_string())), (BuildOutcome::Error, 0));
    assert_eq!(build_outcome(&Err("panic".to_string())), (BuildOutcome::Error, 0));
    assert_eq!(BuildOutcome::Succeeded.label(), "ok");
    assert_eq!(BuildOutcome::PanicRecovered.label(), "panic-recovered");
    assert_eq!(BuildOutcome::Error.label(), "error");
}

#[test]
fn keys_of_bundles_and_manifests() {
    assert_eq!(bundle_key("v41", "scene", "h_webgl"), "v41/scene/h_webgl");
    assert_eq!(bundle_lock_key("scene", "h_webgl"), "scene/h_webgl");
    assert_eq!(manifest_key("scene_windows"), "manifest/scene_windows.json");
    assert_eq!(manifest_key_for_bundle("scene", "my_hash_mac"), Some("manifest/scene_mac.json".to_string()));
    assert_eq!(manifest_key_for_bundle("scene", "nohash"), None);
}

#[test]
fn index_many_keys() {
    let mut idx = HashIndex::new();
    let pairs: Vec<(String, String)> = (0..5000).map(|i| (format!("bafy{}", (i * 7919) % 5000), format!("e{}", i))).collect();
    assert_eq!(idx.merge_pairs(&pairs), 5000);
    for i in 0..5000 {
        let k = format!("bafy{}", (i * 7919) % 5000);
        assert_eq!(idx.get(&k), Some(format!("e{}", i)));
    }
    assert_eq!(idx.get("bafy5000"), None);
}
