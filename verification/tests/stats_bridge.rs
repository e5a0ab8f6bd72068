use wzmapeditor::stats::{upsert, FeatureStats, StatsDatabase, StructureStats, TemplateStats};
use wzmapeditor::stats_bridge::StatsBridge;

fn database() -> StatsDatabase {
    let mut db = StatsDatabase::new();
    upsert(
        &mut db.structures,
        StructureStats {
            id: "A0LightFactory".into(),
            structure_type: Some("FACTORY".into()),
            width: Some(3),
            breadth: Some(3),
            combines_with_wall: false,
            model: None,
            weapons: Vec::new(),
            ecm_id: None,
            sensor_id: None,
        },
    );
    upsert(
        &mut db.structures,
        StructureStats {
            id: "A0HardcreteMk1Wall".into(),
            structure_type: Some("WALL".into()),
            width: None,
            breadth: None,
            combines_with_wall: false,
            model: None,
            weapons: Vec::new(),
            ecm_id: None,
            sensor_id: None,
        },
    );
    upsert(&mut db.features, FeatureStats { id: "OilResource".into(), feature_type: Some("OIL RESOURCE".into()), model: None });
    upsert(
        &mut db.templates,
        TemplateStats {
            id: "ConstructorDroid".into(),
            body: "Body1REC".into(),
            propulsion: "wheeled01".into(),
            weapons: Vec::new(),
            name: Some("Truck".into()),
            droid_type: Some("DROID_CONSTRUCT".into()),
            construct: Some("Spade1Mk1".into()),
            sensor: None,
            repair: None,
            ecm: None,
            brain: None,
        },
    );
    db
}

#[test]
fn structure_footprints_default_to_one_tile() {
    let db = database();
    let bridge = StatsBridge(&db);
    let factory = bridge.structure_info("A0LightFactory").expect("known structure");
    assert_eq!(factory.structure_type.as_deref(), Some("FACTORY"));
    assert_eq!((factory.width, factory.breadth), (3, 3));
    let wall = bridge.structure_info("A0HardcreteMk1Wall").expect("known structure");
    assert_eq!((wall.width, wall.breadth), (1, 1));
    assert!(bridge.structure_info("Nope").is_none());
}

#[test]
fn features_and_templates_are_looked_up_by_id() {
    let db = database();
    let bridge = StatsBridge(&db);
    assert_eq!(bridge.feature_info("OilResource").unwrap().feature_type.as_deref(), Some("OIL RESOURCE"));
    assert!(bridge.feature_info("Tree").is_none());
    let truck = bridge.template_info("ConstructorDroid").unwrap();
    assert_eq!(truck.droid_type.as_deref(), Some("DROID_CONSTRUCT"));
    assert!(truck.has_construct);
    assert!(bridge.template_info("Other").is_none());
}
