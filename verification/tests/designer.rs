use wzmapeditor::designer::{
    derive_droid_type, droid_family, empty_template, estimate_power_cost, is_save_ready, max_weapon_slots,
    propulsion_compatible, required_turret_for_type, retarget_for_family, validate, DesignerOutcome, DroidFamily,
    Severity, Slot, SlotTab,
};
use wzmapeditor::stats::{upsert, BodyStats, PropulsionStats, StatsDatabase, TemplateStats, TurretStats, WeaponStats};
use wzmapeditor::designer::{commit_save_decision, sync_droid_type, Designer};
use wzmapeditor::map_model::{Droid, WorldPos, WzMap};

fn db_with(body: BodyStats, prop: PropulsionStats, weapons: Vec<WeaponStats>) -> StatsDatabase {
    let mut db = StatsDatabase::new();
    upsert(&mut db.bodies, body);
    upsert(&mut db.propulsion, prop);
    for w in weapons {
        upsert(&mut db.weapons, w);
    }
    db
}

fn body(id: &str, slots: u8, class: Option<&str>) -> BodyStats {
    BodyStats {
        id: id.into(),
        body_class: class.map(str::to_string),
        designable: true,
        usage_class: None,
        cyborg: class == Some("Cyborgs"),
        super_cyborg: false,
        transporter: false,
        scavenger: false,
        weapon_slot_count: slots,
        build_power: Some(100),
        model: None,
        propulsion_models: Vec::new(),
    }
}

fn prop(id: &str, kind: &str) -> PropulsionStats {
    PropulsionStats {
        id: id.into(),
        propulsion_type: Some(kind.into()),
        designable: true,
        usage_class: None,
        weight: Some(50),
        model: None,
    }
}

fn weapon(id: &str) -> WeaponStats {
    WeaponStats {
        id: id.into(),
        designable: true,
        usage_class: None,
        num_attack_runs: None,
        model: None,
        mount_model: None,
    }
}

fn tmpl(body: &str, prop: &str, weapons: &[&str]) -> TemplateStats {
    TemplateStats {
        id: "T".into(),
        body: body.into(),
        propulsion: prop.into(),
        weapons: weapons.iter().map(|s| (*s).to_string()).collect(),
        name: Some("T".into()),
        droid_type: Some("WEAPON".into()),
        construct: None,
        sensor: None,
        repair: None,
        ecm: None,
        brain: None,
    }
}

#[test]
fn valid_basic_template_has_no_errors() {
    let db = db_with(body("B", 2, None), prop("P", "WHEELED"), vec![weapon("W")]);
    let t = tmpl("B", "P", &["W"]);
    let issues = validate(&t, &db);
    assert!(is_save_ready(&issues), "got: {issues:?}");
}

#[test]
fn weapon_slot_overflow_errors() {
    let db = db_with(body("B", 1, None), prop("P", "WHEELED"), vec![weapon("W1"), weapon("W2")]);
    let t = tmpl("B", "P", &["W1", "W2"]);
    let issues = validate(&t, &db);
    assert!(!is_save_ready(&issues));
}

#[test]
fn cyborg_requires_legged_propulsion() {
    let db = db_with(body("CyBody", 1, Some("Cyborgs")), prop("Wheels", "WHEELED"), vec![weapon("W")]);
    let t = tmpl("CyBody", "Wheels", &["W"]);
    let issues = validate(&t, &db);
    assert!(!is_save_ready(&issues));
}

#[test]
fn legged_rejected_for_non_cyborg() {
    let db = db_with(body("Tank", 1, None), prop("Legs", "LEGGED"), vec![weapon("W")]);
    let t = tmpl("Tank", "Legs", &["W"]);
    let issues = validate(&t, &db);
    assert!(!is_save_ready(&issues));
}

#[test]
fn construct_droid_needs_constructor() {
    let db = db_with(body("B", 1, None), prop("P", "WHEELED"), vec![]);
    let mut t = tmpl("B", "P", &[]);
    t.droid_type = Some("CONSTRUCT".into());
    let issues = validate(&t, &db);
    assert!(!is_save_ready(&issues));
}

#[test]
fn unknown_body_errors() {
    let db = db_with(body("B", 1, None), prop("P", "WHEELED"), vec![weapon("W")]);
    let t = tmpl("Missing", "P", &["W"]);
    let issues = validate(&t, &db);
    assert!(!is_save_ready(&issues));
    assert_eq!(issues.len(), 1);
    assert_eq!(issues[0].slot, Slot::Body);
    assert_eq!(issues[0].message, "Unknown body 'Missing'");
}

#[test]
fn empty_droid_produces_warning_not_error() {
    let db = db_with(body("B", 1, None), prop("P", "WHEELED"), vec![]);
    let t = tmpl("B", "P", &[]);
    let issues = validate(&t, &db);
    assert!(is_save_ready(&issues));
    assert!(issues.iter().any(|i| i.severity == Severity::Warning));
}

#[test]
fn missing_propulsion_is_reported() {
    let db = db_with(body("B", 1, None), prop("P", "WHEELED"), vec![]);
    let t = tmpl("B", "", &[]);
    let issues = validate(&t, &db);
    assert_eq!(issues.len(), 1);
    assert_eq!(issues[0].severity, Severity::Error);
    assert_eq!(issues[0].message, "No propulsion selected");
}

#[test]
fn propulsion_compatibility_messages() {
    let cy = body("Cy", 1, Some("Cyborgs"));
    let tank = body("Tank", 1, None);
    assert!(propulsion_compatible(&cy, &prop("L", "LEGGED")).is_ok());
    assert!(propulsion_compatible(&cy, &prop("W", "WHEELED")).is_err());
    assert_eq!(
        propulsion_compatible(&tank, &prop("L", "LEGGED")),
        Err("Legged propulsion is only for cyborg bodies".to_string())
    );
    assert_eq!(max_weapon_slots(&body("X", 3, None)), 3);
}

#[test]
fn families_and_required_turrets() {
    assert_eq!(droid_family(Some("CYBORG")), DroidFamily::Cyborg);
    assert_eq!(droid_family(Some("WEAPON")), DroidFamily::Standard);
    assert_eq!(droid_family(None), DroidFamily::Standard);
    assert_eq!(required_turret_for_type(Some("CONSTRUCT")), Some(Slot::Construct));
    assert_eq!(required_turret_for_type(Some("WEAPON")), None);
}

#[test]
fn derive_type_from_loadout() {
    let mut db = db_with(body("B", 1, None), prop("P", "WHEELED"), vec![weapon("W")]);
    upsert(&mut db.construct, TurretStats { id: "Spade".into(), usage_class: None, model: None, mount_model: None, turret: None });
    let mut t = tmpl("B", "P", &["W"]);
    assert_eq!(derive_droid_type(&t, &db), "WEAPON");
    t.construct = Some("Spade".into());
    assert_eq!(derive_droid_type(&t, &db), "CONSTRUCT");
}

#[test]
fn power_cost_sums_body_half_weight_and_weapons() {
    let db = db_with(body("B", 2, None), prop("P", "WHEELED"), vec![weapon("W")]);
    let t = tmpl("B", "P", &["W", "W"]);
    assert_eq!(estimate_power_cost(&t, &db), 100 + 25 + 20);
}

#[test]
fn retarget_drops_parts_of_the_wrong_family() {
    let mut db = db_with(body("Tank", 1, None), prop("Wheels", "WHEELED"), vec![weapon("W")]);
    upsert(&mut db.bodies, body("Cy", 1, Some("Cyborgs")));
    let mut legs = prop("Legs", "LEGGED");
    legs.usage_class = Some("Cyborg".into());
    upsert(&mut db.propulsion, legs);
    let mut t = tmpl("Tank", "Wheels", &["W"]);
    t.droid_type = Some("CYBORG".into());
    retarget_for_family(&mut t, &db);
    assert_eq!(t.body, "Cy");
    assert_eq!(t.propulsion, "Legs");
}

#[test]
fn slot_tab_labels_and_blank_template() {
    assert_eq!(SlotTab::Weapon(0).label(), "W1");
    assert_eq!(SlotTab::Body.label(), "Body");
    assert_eq!(SlotTab::Turret.sprite_filename(), "image_des_systems.png");
    assert_eq!(SlotTab::Propulsion.tooltip(), "Locomotion: wheels, tracks, hover, VTOL");
    assert_eq!(SlotTab::Weapon(2).icon(), "\u{2694}");
    let t = empty_template();
    assert!(t.body.is_empty() && t.propulsion.is_empty());
    let o = DesignerOutcome::default();
    assert!(o.saved_template_id.is_none() && !o.cancelled);
}

#[test]
fn open_fresh_picks_first_standard_parts() {
    let mut db = db_with(body("Cy", 1, Some("Cyborgs")), prop("Legs", "LEGGED"), vec![]);
    upsert(&mut db.bodies, body("Tank", 2, None));
    upsert(&mut db.propulsion, prop("Wheels", "WHEELED"));
    upsert(&mut db.weapons, weapon("Gun"));
    let mut d = Designer::default();
    assert!(!d.open);
    d.open_fresh(&db);
    assert!(d.open);
    assert_eq!(d.buffer.body, "Tank");
    assert_eq!(d.buffer.propulsion, "Wheels");
    assert_eq!(d.buffer.weapons, vec!["Gun".to_string()]);
    assert_eq!(d.name_buf, "New Droid");
    assert_eq!(d.buffer.name.as_deref(), Some("New Droid"));
    assert!(d.editing_id.is_none());
}

#[test]
fn open_with_template_copies_without_the_id() {
    let mut src = tmpl("B", "P", &["W"]);
    src.name = None;
    let mut d = Designer::default();
    d.active_slot = SlotTab::Turret;
    d.last_save_error = Some("old".into());
    d.open_with_template(&src);
    assert!(d.open);
    assert_eq!(d.buffer.id, "");
    assert_eq!(d.buffer.body, "B");
    assert_eq!(d.buffer.weapons, vec!["W".to_string()]);
    assert_eq!(d.name_buf, "T");
    assert_eq!(d.active_slot, SlotTab::Body);
    assert!(d.last_save_error.is_none());
}

#[test]
fn a_save_repoints_the_droid_the_designer_was_opened_from() {
    let mut map = WzMap::new(4, 4);
    map.droids.push(Droid { name: "ConstructorDroid".into(), position: WorldPos { x: 64, y: 64 }, direction: 0, player: 0, id: None });
    let mut d = Designer::default();
    d.retarget_droid_index = Some(0);

    // A frame without a save leaves everything as it was.
    assert!(!d.apply_saved_template(Some(&mut map), None));
    assert_eq!(d.retarget_droid_index, Some(0));
    assert_eq!(map.droids[0].name, "ConstructorDroid");

    assert!(d.apply_saved_template(Some(&mut map), Some("custom-1".into())));
    assert_eq!(map.droids[0].name, "custom-1");
    assert_eq!(d.retarget_droid_index, None);

    // Opened for a droid that is gone, or with no map open: only forgotten.
    d.retarget_droid_index = Some(5);
    assert!(!d.apply_saved_template(Some(&mut map), Some("custom-2".into())));
    assert_eq!(map.droids[0].name, "custom-1");
    assert_eq!(d.retarget_droid_index, None);
    d.retarget_droid_index = Some(0);
    assert!(!d.apply_saved_template(None, Some("custom-3".into())));
    assert_eq!(d.retarget_droid_index, None);
}

#[test]
fn save_takes_the_edited_or_a_fresh_id_and_refuses_errors() {
    let db = db_with(body("B", 2, None), prop("P", "WHEELED"), vec![weapon("W")]);
    let mut d = Designer::default();
    d.open_with_template(&tmpl("B", "P", &["W"]));
    d.name_buf = "My Tank".into();

    let t = commit_save_decision(&d, &db, false, "custom-7".into()).expect("valid template");
    assert_eq!(t.id, "custom-7");
    assert_eq!(t.name.as_deref(), Some("My Tank"));
    assert_eq!(t.body, "B");
    assert_eq!(t.weapons, vec!["W".to_string()]);

    d.editing_id = Some("custom-2".into());
    assert_eq!(commit_save_decision(&d, &db, false, "custom-7".into()).unwrap().id, "custom-2");
    assert_eq!(commit_save_decision(&d, &db, true, "custom-7".into()).unwrap().id, "custom-7");

    d.buffer.weapons = vec!["W".into(), "W".into(), "W".into()];
    assert_eq!(
        commit_save_decision(&d, &db, false, "custom-7".into()).unwrap_err(),
        "Template has errors. Fix them before saving"
    );
}

#[test]
fn picking_a_cyborg_body_retargets_the_parts() {
    let mut db = db_with(body("Tank", 1, None), prop("Wheels", "WHEELED"), vec![weapon("W")]);
    upsert(&mut db.bodies, body("Cy", 1, Some("Cyborgs")));
    let mut legs = prop("Legs", "LEGGED");
    legs.usage_class = Some("Cyborg".into());
    upsert(&mut db.propulsion, legs);
    let mut t = tmpl("Cy", "Wheels", &[]);
    assert!(sync_droid_type(&mut t, &db));
    assert_eq!(t.droid_type.as_deref(), Some("CYBORG"));
    assert_eq!(t.body, "Cy");
    assert_eq!(t.propulsion, "Legs");
    assert!(!sync_droid_type(&mut t, &db));
    assert_eq!(t.propulsion, "Legs");

    let mut plain = tmpl("Tank", "Wheels", &["W"]);
    plain.droid_type = None;
    assert!(!sync_droid_type(&mut plain, &db));
    assert_eq!(plain.droid_type.as_deref(), Some("WEAPON"));
    assert_eq!(plain.weapons, vec!["W".to_string()]);
}
