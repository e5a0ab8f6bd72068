use std::sync::Arc;
use wzmapeditor::loader_cache::LoaderCache;
use wzmapeditor::stats::{upsert, BodyStats, FeatureStats, StatsDatabase, StructureStats, TemplateStats};

/// Stand-in for a parsed PIE model.
#[derive(Debug, PartialEq)]
struct Parsed(u32);

type Cache = LoaderCache<Parsed, Vec<[f32; 3]>>;

fn make_parsed() -> Parsed {
    Parsed(3)
}

#[test]
fn promote_evicts_parsed_and_marks_uploaded() {
    let stats = StatsDatabase::new();
    let mut cache: Cache = LoaderCache::new(&stats);
    assert!(cache.insert_parsed("foo.pie", make_parsed()));
    assert!(cache.has_parsed("foo.pie"));
    assert!(!cache.is_uploaded("foo.pie"));
    let promoted = cache.promote_to_uploaded("foo.pie");
    assert!(promoted.is_some(), "promote should return the parsed model");
    assert_eq!(promoted, Some(Parsed(3)));
    assert!(!cache.has_parsed("foo.pie"), "parsed lookup must return None after promotion");
    assert!(cache.is_uploaded("foo.pie"));
}

#[test]
fn insert_parsed_rejected_when_already_uploaded() {
    let stats = StatsDatabase::new();
    let mut cache: Cache = LoaderCache::new(&stats);
    cache.mark_uploaded("foo.pie");
    let accepted = cache.insert_parsed("foo.pie", make_parsed());
    assert!(!accepted, "must not store parsed for an uploaded name");
    assert!(!cache.has_parsed("foo.pie"));
}

#[test]
fn mark_uploaded_evicts_stale_parsed() {
    let stats = StatsDatabase::new();
    let mut cache: Cache = LoaderCache::new(&stats);
    assert!(cache.insert_parsed("foo.pie", make_parsed()));
    cache.mark_uploaded("foo.pie");
    assert!(!cache.has_parsed("foo.pie"));
    assert!(cache.is_uploaded("foo.pie"));
}

#[test]
fn promote_missing_returns_none() {
    let stats = StatsDatabase::new();
    let mut cache: Cache = LoaderCache::new(&stats);
    assert!(cache.promote_to_uploaded("missing.pie").is_none());
    assert!(!cache.is_uploaded("missing.pie"));
}

#[test]
fn set_tileset_clears_uploaded_only() {
    let stats = StatsDatabase::new();
    let mut cache: Cache = LoaderCache::new(&stats);
    cache.mark_uploaded("foo.pie");
    cache.insert_connectors("foo.pie".to_string(), vec![[0.0, 0.0, 0.0]]);
    assert!(cache.is_uploaded("foo.pie"));
    assert!(cache.has_connectors("foo.pie"));
    let changed = cache.set_tileset(1);
    assert!(changed);
    assert_eq!(cache.tileset_index(), 1);
    assert!(!cache.is_uploaded("foo.pie"));
    assert!(cache.has_connectors("foo.pie"), "connectors must survive a tileset switch");
    assert!(!cache.set_tileset(1));
}

#[test]
fn mark_not_found_evicts_parsed_and_uploaded() {
    let stats = StatsDatabase::new();
    let mut cache: Cache = LoaderCache::new(&stats);
    assert!(cache.insert_parsed("foo.pie", make_parsed()));
    cache.mark_not_found("foo.pie");
    assert!(!cache.has_parsed("foo.pie"));
    assert!(!cache.is_uploaded("foo.pie"));
    assert!(cache.is_not_found("foo.pie"));
    cache.mark_uploaded("bar.pie");
    cache.mark_not_found("bar.pie");
    assert!(!cache.is_uploaded("bar.pie"));
    assert!(!cache.has_parsed("bar.pie"));
    assert!(cache.is_not_found("bar.pie"));
}

#[test]
fn intern_returns_same_arc_for_repeated_name() {
    let stats = StatsDatabase::new();
    let mut cache: Cache = LoaderCache::new(&stats);
    let a = cache.intern("body1.pie");
    let b = cache.intern("body1.pie");
    assert!(Arc::ptr_eq(&a, &b));
    assert_eq!(*a, "body1.pie");
    let c = cache.intern("body2.pie");
    assert!(!Arc::ptr_eq(&a, &c));
}

#[test]
fn counts_follow_the_caches() {
    let stats = StatsDatabase::new();
    let mut cache: Cache = LoaderCache::new(&stats);
    assert!(cache.insert_parsed("a.pie", Parsed(1)));
    assert!(cache.insert_parsed("a.pie", Parsed(2)));
    assert_eq!(cache.get_parsed("a.pie"), Some(&Parsed(2)));
    assert!(cache.insert_parsed("b.pie", Parsed(1)));
    cache.mark_uploaded("c.pie");
    cache.mark_uploaded("c.pie");
    cache.mark_not_found("d.pie");
    assert_eq!(cache.parsed_cache_len(), 2);
    assert_eq!(cache.uploaded_len(), 1);
    assert_eq!(cache.not_found_cache_len(), 1);
    assert_eq!(cache.imd_map_len(), 0);
}

#[test]
fn connectors_if_absent_keeps_the_first() {
    let stats = StatsDatabase::new();
    let mut cache: Cache = LoaderCache::new(&stats);
    cache.insert_connectors_if_absent("w.pie".to_string(), vec![[1.0, 0.0, 0.0]]);
    cache.insert_connectors_if_absent("w.pie".to_string(), vec![[2.0, 0.0, 0.0]]);
    assert_eq!(cache.get_connectors("w.pie"), Some(&vec![[1.0, 0.0, 0.0]]));
    cache.insert_connectors("w.pie".to_string(), vec![]);
    assert_eq!(cache.get_connectors("w.pie"), Some(&vec![]));
    assert_eq!(cache.connector_key_snapshot(), vec!["w.pie".to_string()]);
    assert!(cache.get_connectors("x.pie").is_none());
}

#[test]
fn imd_table_prefers_templates_then_features_then_structures() {
    let mut stats = StatsDatabase::new();
    upsert(
        &mut stats.structures,
        StructureStats {
            id: "Thing".into(),
            structure_type: None,
            width: None,
            breadth: None,
            combines_with_wall: false,
            model: Some("struct.pie".into()),
            weapons: Vec::new(),
            ecm_id: None,
            sensor_id: None,
        },
    );
    upsert(&mut stats.features, FeatureStats { id: "Thing".into(), feature_type: None, model: Some("feature.pie".into()) });
    upsert(&mut stats.features, FeatureStats { id: "Tree".into(), feature_type: Some("TREE".into()), model: Some("tree.pie".into()) });
    upsert(
        &mut stats.bodies,
        BodyStats {
            id: "Body".into(),
            body_class: None,
            designable: true,
            usage_class: None,
            cyborg: false,
            super_cyborg: false,
            transporter: false,
            scavenger: false,
            weapon_slot_count: 1,
            build_power: None,
            model: Some("body.pie".into()),
            propulsion_models: Vec::new(),
        },
    );
    upsert(
        &mut stats.templates,
        TemplateStats {
            id: "Tree".into(),
            body: "Body".into(),
            propulsion: "P".into(),
            weapons: Vec::new(),
            name: None,
            droid_type: None,
            construct: None,
            sensor: None,
            repair: None,
            ecm: None,
            brain: None,
        },
    );
    let cache: Cache = LoaderCache::new(&stats);
    assert_eq!(cache.imd_for_object("Thing"), Some("feature.pie"));
    assert_eq!(cache.imd_for_object("Tree"), Some("body.pie"));
    assert_eq!(cache.imd_for_object("Nothing"), None);
    assert_eq!(cache.imd_map_len(), 2);
}

#[test]
fn a_name_found_after_all_leaves_the_missing_set() {
    let stats = StatsDatabase::new();
    let mut cache: Cache = LoaderCache::new(&stats);
    cache.mark_not_found("foo.pie");
    cache.mark_uploaded("foo.pie");
    assert!(cache.is_uploaded("foo.pie"));
    assert!(!cache.is_not_found("foo.pie"));

    cache.mark_not_found("bar.pie");
    assert!(cache.insert_parsed("bar.pie", make_parsed()));
    assert!(cache.has_parsed("bar.pie"));
    assert!(!cache.is_not_found("bar.pie"));

    // A refused insert changes nothing.
    cache.mark_not_found("baz.pie");
    cache.mark_uploaded("baz.pie");
    assert!(!cache.insert_parsed("baz.pie", make_parsed()));
    assert!(cache.is_uploaded("baz.pie"));
}
