use wzmapeditor::stats::{
    upsert, BodyStats, PropulsionModel, PropulsionStats, StatsDatabase, StructureStats, TemplateStats, TurretStats,
    WeaponStats,
};
use wzmapeditor::stats_mapper::{build_imd_map, resolve_droid_components, resolve_structure_weapons};

fn weapon(id: &str, model: Option<&str>, mount: Option<&str>) -> WeaponStats {
    WeaponStats {
        id: id.into(),
        designable: true,
        usage_class: None,
        num_attack_runs: None,
        model: model.map(str::to_string),
        mount_model: mount.map(str::to_string),
    }
}

fn turret(id: &str, model: Option<&str>, mount: Option<&str>, carries: Option<&str>) -> TurretStats {
    TurretStats {
        id: id.into(),
        usage_class: None,
        model: model.map(str::to_string),
        mount_model: mount.map(str::to_string),
        turret: carries.map(str::to_string),
    }
}

fn structure(id: &str, kind: Option<&str>, weapons: &[&str], ecm: Option<&str>, sensor: Option<&str>) -> StructureStats {
    StructureStats {
        id: id.into(),
        structure_type: kind.map(str::to_string),
        width: Some(1),
        breadth: Some(1),
        combines_with_wall: false,
        model: Some(format!("{id}.pie")),
        weapons: weapons.iter().map(|s| s.to_string()).collect(),
        ecm_id: ecm.map(str::to_string),
        sensor_id: sensor.map(str::to_string),
    }
}

fn template(body: &str, prop: &str, weapons: &[&str]) -> TemplateStats {
    TemplateStats {
        id: "Droid".into(),
        body: body.into(),
        propulsion: prop.into(),
        weapons: weapons.iter().map(|s| s.to_string()).collect(),
        name: None,
        droid_type: None,
        construct: None,
        sensor: None,
        repair: None,
        ecm: None,
        brain: None,
    }
}

fn db() -> StatsDatabase {
    let mut db = StatsDatabase::new();
    upsert(
        &mut db.bodies,
        BodyStats {
            id: "Body".into(),
            body_class: None,
            designable: true,
            usage_class: None,
            cyborg: false,
            super_cyborg: false,
            transporter: false,
            scavenger: false,
            weapon_slot_count: 2,
            build_power: None,
            model: Some("body.pie".into()),
            propulsion_models: vec![PropulsionModel { propulsion: "Tracks".into(), model: "body_tracks.pie".into() }],
        },
    );
    upsert(
        &mut db.propulsion,
        PropulsionStats {
            id: "Wheels".into(),
            propulsion_type: Some("WHEELED".into()),
            designable: true,
            usage_class: None,
            weight: None,
            model: Some("wheels.pie".into()),
        },
    );
    upsert(
        &mut db.propulsion,
        PropulsionStats {
            id: "Tracks".into(),
            propulsion_type: Some("TRACKED".into()),
            designable: true,
            usage_class: None,
            weight: None,
            model: Some("tracks.pie".into()),
        },
    );
    upsert(&mut db.weapons, weapon("Gun", Some("gun.pie"), Some("mount.pie")));
    upsert(&mut db.weapons, weapon("Blank", None, None));
    upsert(&mut db.weapons, weapon("Cmd", Some("cmd.pie"), None));
    upsert(&mut db.construct, turret("Spade", Some("spade.pie"), None, None));
    upsert(&mut db.sensor, turret("Eye", Some("eye.pie"), Some("eye_mount.pie"), None));
    upsert(&mut db.ecm, turret("Jammer", Some("ecm.pie"), None, None));
    upsert(&mut db.brain, turret("Brain", None, None, Some("Cmd")));
    db
}

#[test]
fn droid_components_list_body_propulsion_and_turrets() {
    let mut db = db();
    let mut t = template("Body", "Wheels", &["Gun", "Blank", "Missing"]);
    t.construct = Some("Spade".into());
    t.brain = Some("Brain".into());
    upsert(&mut db.templates, t);
    let c = resolve_droid_components("Droid", &db).expect("template exists");
    assert_eq!(c.body.as_deref(), Some("body.pie"));
    assert_eq!(c.propulsion.as_deref(), Some("wheels.pie"));
    assert_eq!(c.weapons, vec!["gun.pie".to_string(), "spade.pie".to_string(), "cmd.pie".to_string()]);
    assert_eq!(c.mounts, vec![Some("mount.pie".to_string()), None, None]);
    assert!(resolve_droid_components("Nope", &db).is_none());
}

#[test]
fn body_specific_propulsion_model_wins() {
    let mut db = db();
    upsert(&mut db.templates, template("Body", "Tracks", &[]));
    let c = resolve_droid_components("Droid", &db).unwrap();
    assert_eq!(c.propulsion.as_deref(), Some("body_tracks.pie"));
    assert!(c.weapons.is_empty());
}

#[test]
fn brain_weapon_listed_once() {
    let mut db = db();
    let mut t = template("Body", "Wheels", &["Cmd"]);
    t.brain = Some("Brain".into());
    upsert(&mut db.templates, t);
    let c = resolve_droid_components("Droid", &db).unwrap();
    assert_eq!(c.weapons, vec!["cmd.pie".to_string()]);
}

#[test]
fn structure_weapons_fall_back_to_ecm_then_sensor() {
    let mut db = db();
    upsert(&mut db.structures, structure("Tower", Some("DEFENSE"), &["Gun"], Some("Jammer"), Some("Eye")));
    upsert(&mut db.structures, structure("Jam", Some("DEFENSE"), &[], Some("Jammer"), Some("Eye")));
    upsert(&mut db.structures, structure("Post", Some("DEFENSE"), &[], None, Some("Eye")));
    upsert(&mut db.structures, structure("Wall", Some("WALL"), &[], Some("Jammer"), Some("Eye")));
    upsert(&mut db.structures, structure("Plain", Some("DEFENSE"), &["Blank"], None, None));
    let w = resolve_structure_weapons("Tower", &db).unwrap();
    assert_eq!(w.weapons, vec!["gun.pie".to_string()]);
    assert_eq!(w.mounts, vec![Some("mount.pie".to_string())]);
    assert_eq!(resolve_structure_weapons("Jam", &db).unwrap().weapons, vec!["ecm.pie".to_string()]);
    let p = resolve_structure_weapons("Post", &db).unwrap();
    assert_eq!(p.weapons, vec!["eye.pie".to_string()]);
    assert_eq!(p.mounts, vec![Some("eye_mount.pie".to_string())]);
    assert!(resolve_structure_weapons("Wall", &db).is_none());
    assert!(resolve_structure_weapons("Plain", &db).is_none());
    assert!(resolve_structure_weapons("Nope", &db).is_none());
}

#[test]
fn imd_map_has_one_row_per_named_model() {
    let mut db = db();
    upsert(&mut db.structures, structure("Tower", None, &[], None, None));
    upsert(&mut db.templates, template("Body", "Wheels", &[]));
    let map = build_imd_map(&db);
    let rows: Vec<(String, String)> = map.iter().map(|e| (e.name.clone(), e.imd.clone())).collect();
    assert_eq!(rows, vec![("Tower".to_string(), "Tower.pie".to_string()), ("Droid".to_string(), "body.pie".to_string())]);
}
