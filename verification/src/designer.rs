//! Droid-designer rules: which bodies, propulsions and weapons a droid family
//! may use, and the validation of a droid template against the stats
//! database (the game's own template-validity rules), with the messages
//! shown to the user.
use vstd::prelude::*;
use crate::map_model::{Droid, WzMap};
use crate::stats::{
    BodyStats, PropulsionStats, StatsDatabase, TemplateStats, TurretStats, WeaponStats, Keyed,
    spec_get, has_key, find_key, contains_key, keys_unique, is_first_key,
    lemma_first_key_unique,
};
use crate::text::{upper_seq, eq_ignore_case, decimal, upper_is, str_eq, str_eq_ignore_case, push_str, push_u64, owned};

verus! {

/// Broad family a droid template falls into, derived from `droidType`.
#[derive(Debug, Clone, Copy, PartialEq, Eq, Structural)]
pub enum DroidFamily {
    /// Tank-like droid (any non-cyborg, non-transporter type).
    Standard,
    /// Light, medium or heavy cyborg.
    Cyborg,
    /// Super cyborg.
    SuperCyborg,
    /// Transporter or super transporter.
    Transporter,
}

/// Broad propulsion medium derived from the propulsion type.
#[derive(Debug, Clone, Copy, PartialEq, Eq, Structural)]
pub enum PropulsionMedium {
    /// Wheeled, tracked, half-tracked, hover or legged.
    Ground,
    /// VTOL or transporter lift.
    Air,
    /// Unrecognised propulsion type.
    Unknown,
}

/// Errors block saving; warnings let the user proceed.
#[derive(Debug, Clone, Copy, PartialEq, Eq, Structural)]
pub enum Severity {
    Error,
    Warning,
}

/// Which slot an issue is about.
#[derive(Debug, Clone, Copy, PartialEq, Eq, Structural)]
pub enum Slot {
    Body,
    Propulsion,
    Weapon(u8),
    Brain,
    Sensor,
    Ecm,
    Repair,
    Construct,
    /// Concerns the whole template.
    General,
}

/// One validation finding.
#[derive(Debug)]
pub struct Issue {
    pub severity: Severity,
    pub slot: Slot,
    pub message: String,
}

/// The mathematical content of an [`Issue`].
pub struct IssueView {
    pub severity: Severity,
    pub slot: Slot,
    pub message: Seq<char>,
}

impl View for Issue {
    type V = IssueView;

    open spec fn view(&self) -> IssueView {
        IssueView { severity: self.severity, slot: self.slot, message: self.message@ }
    }
}

impl Clone for Issue {
    fn clone(&self) -> (r: Self)
        ensures
            r == *self,
    {
        Issue { severity: self.severity, slot: self.slot, message: self.message.clone() }
    }
}

pub open spec fn issues_view(v: Seq<Issue>) -> Seq<IssueView> {
    v.map_values(|i: Issue| i@)
}

pub open spec fn error_view(slot: Slot, message: Seq<char>) -> IssueView {
    IssueView { severity: Severity::Error, slot, message }
}

pub open spec fn warning_view(slot: Slot, message: Seq<char>) -> IssueView {
    IssueView { severity: Severity::Warning, slot, message }
}

/// `[issue]` when `cond` holds, else nothing.
pub open spec fn when(cond: bool, issue: IssueView) -> Seq<IssueView> {
    if cond {
        seq![issue]
    } else {
        seq![]
    }
}

impl Issue {
    /// An error about `slot`.
    pub fn error(slot: Slot, message: String) -> (r: Self)
        ensures
            r@ == error_view(slot, message@),
    {
        Issue { severity: Severity::Error, slot, message }
    }

    /// A warning about `slot`.
    pub fn warn(slot: Slot, message: String) -> (r: Self)
        ensures
            r@ == warning_view(slot, message@),
    {
        Issue { severity: Severity::Warning, slot, message }
    }
}

pub open spec fn opt_view(o: Option<String>) -> Option<Seq<char>> {
    match o {
        Some(s) => Some(s@),
        None => None,
    }
}

pub open spec fn opt_str_view(o: Option<&str>) -> Option<Seq<char>> {
    match o {
        Some(s) => Some(s@),
        None => None,
    }
}

/// Borrow the text of an optional string.
pub fn opt_as_str(o: &Option<String>) -> (r: Option<&str>)
    ensures
        opt_str_view(r) == opt_view(*o),
{
    match o {
        Some(s) => Some(s.as_str()),
        None => None,
    }
}

pub open spec fn spec_droid_family(droid_type: Option<Seq<char>>) -> DroidFamily {
    match droid_type {
        Some(t) => {
            let u = upper_seq(t);
            if u == "CYBORG_SUPER"@ {
                DroidFamily::SuperCyborg
            } else if u == "CYBORG"@ || u == "CYBORG_CONSTRUCT"@ || u == "CYBORG_REPAIR"@ {
                DroidFamily::Cyborg
            } else if u == "TRANSPORTER"@ || u == "SUPERTRANSPORTER"@ {
                DroidFamily::Transporter
            } else {
                DroidFamily::Standard
            }
        },
        None => DroidFamily::Standard,
    }
}

/// Family of a droid type, compared case-insensitively.
pub fn droid_family(droid_type: Option<&str>) -> (r: DroidFamily)
    ensures
        r == spec_droid_family(opt_str_view(droid_type)),
{
    match droid_type {
        Some(t) => {
            if upper_is(t, "CYBORG_SUPER") {
                DroidFamily::SuperCyborg
            } else if upper_is(t, "CYBORG") || upper_is(t, "CYBORG_CONSTRUCT") || upper_is(
                t,
                "CYBORG_REPAIR",
            ) {
                DroidFamily::Cyborg
            } else if upper_is(t, "TRANSPORTER") || upper_is(t, "SUPERTRANSPORTER") {
                DroidFamily::Transporter
            } else {
                DroidFamily::Standard
            }
        },
        None => DroidFamily::Standard,
    }
}

pub open spec fn spec_usage_matches(family: DroidFamily, usage: Option<Seq<char>>) -> bool {
    match family {
        DroidFamily::Cyborg => usage == Some("Cyborg"@),
        DroidFamily::SuperCyborg => usage == Some("SuperCyborg"@) || usage == Some("Cyborg"@),
        DroidFamily::Standard | DroidFamily::Transporter => usage is None,
    }
}

fn opt_is(o: Option<&str>, lit: &str) -> (r: bool)
    ensures
        r == (opt_str_view(o) == Some(lit@)),
{
    match o {
        Some(s) => str_eq(s, lit),
        None => false,
    }
}

/// Whether a component's usage class suits the droid family.
pub fn usage_matches(family: DroidFamily, usage: Option<&str>) -> (r: bool)
    ensures
        r == spec_usage_matches(family, opt_str_view(usage)),
{
    match family {
        DroidFamily::Cyborg => opt_is(usage, "Cyborg"),
        DroidFamily::SuperCyborg => opt_is(usage, "SuperCyborg") || opt_is(usage, "Cyborg"),
        DroidFamily::Standard | DroidFamily::Transporter => usage.is_none(),
    }
}

pub open spec fn spec_body_allowed(body: BodyStats, family: DroidFamily) -> bool {
    match family {
        DroidFamily::Cyborg | DroidFamily::SuperCyborg => body.cyborg,
        DroidFamily::Transporter => body.transporter,
        DroidFamily::Standard => !body.cyborg && !body.transporter && !body.scavenger,
    }
}

/// Whether the body suits the droid family.
pub fn body_allowed(body: &BodyStats, family: DroidFamily) -> (r: bool)
    ensures
        r == spec_body_allowed(*body, family),
{
    match family {
        DroidFamily::Cyborg | DroidFamily::SuperCyborg => body.cyborg,
        DroidFamily::Transporter => body.transporter,
        DroidFamily::Standard => !body.cyborg && !body.transporter && !body.scavenger,
    }
}

pub open spec fn spec_body_selectable(body: BodyStats, family: DroidFamily) -> bool {
    body.designable && spec_body_allowed(body, family)
}

/// Whether the body is offered in the designer for the family: it must be
/// designable and allowed.
pub fn body_selectable(body: &BodyStats, family: DroidFamily) -> (r: bool)
    ensures
        r == spec_body_selectable(*body, family),
{
    if !body.designable {
        return false;
    }
    body_allowed(body, family)
}

pub open spec fn spec_is_legged(prop: PropulsionStats) -> bool {
    prop.propulsion_type matches Some(t) && eq_ignore_case(t@, "LEGGED"@)
}

/// Whether the propulsion is the legged type cyborg bodies need.
pub fn is_legged(prop: &PropulsionStats) -> (r: bool)
    ensures
        r == spec_is_legged(*prop),
{
    match &prop.propulsion_type {
        Some(t) => str_eq_ignore_case(t.as_str(), "LEGGED"),
        None => false,
    }
}

pub open spec fn spec_propulsion_medium(prop: PropulsionStats) -> PropulsionMedium {
    match prop.propulsion_type {
        Some(t) => {
            let u = upper_seq(t@);
            if u == "LIFT"@ {
                PropulsionMedium::Air
            } else if u == "WHEELED"@ || u == "TRACKED"@ || u == "HALF-TRACKED"@ || u
                == "HOVER"@ || u == "LEGGED"@ {
                PropulsionMedium::Ground
            } else {
                PropulsionMedium::Unknown
            }
        },
        None => PropulsionMedium::Unknown,
    }
}

/// Medium of a propulsion, from its type compared case-insensitively.
pub fn propulsion_medium(prop: &PropulsionStats) -> (r: PropulsionMedium)
    ensures
        r == spec_propulsion_medium(*prop),
{
    match &prop.propulsion_type {
        Some(t) => {
            let s = t.as_str();
            if upper_is(s, "LIFT") {
                PropulsionMedium::Air
            } else if upper_is(s, "WHEELED") || upper_is(s, "TRACKED") || upper_is(
                s,
                "HALF-TRACKED",
            ) || upper_is(s, "HOVER") || upper_is(s, "LEGGED") {
                PropulsionMedium::Ground
            } else {
                PropulsionMedium::Unknown
            }
        },
        None => PropulsionMedium::Unknown,
    }
}

pub open spec fn spec_propulsion_allowed(prop: PropulsionStats, family: DroidFamily) -> bool {
    prop.designable && match family {
        DroidFamily::Cyborg | DroidFamily::SuperCyborg => spec_is_legged(prop)
            && spec_usage_matches(family, opt_view(prop.usage_class)),
        DroidFamily::Transporter => spec_propulsion_medium(prop) == PropulsionMedium::Air,
        DroidFamily::Standard => !spec_is_legged(prop),
    }
}

/// Whether the propulsion suits the droid family.
pub fn propulsion_allowed(prop: &PropulsionStats, family: DroidFamily) -> (r: bool)
    ensures
        r == spec_propulsion_allowed(*prop, family),
{
    if !prop.designable {
        return false;
    }
    match family {
        DroidFamily::Cyborg | DroidFamily::SuperCyborg => {
            is_legged(prop) && usage_matches(family, opt_as_str(&prop.usage_class))
        },
        DroidFamily::Transporter => propulsion_medium(prop) == PropulsionMedium::Air,
        DroidFamily::Standard => !is_legged(prop),
    }
}

pub open spec fn spec_weapon_allowed(weapon: WeaponStats, family: DroidFamily) -> bool {
    weapon.designable && spec_usage_matches(family, opt_view(weapon.usage_class))
}

/// Whether the weapon is selectable for the droid family.
pub fn weapon_allowed(weapon: &WeaponStats, family: DroidFamily) -> (r: bool)
    ensures
        r == spec_weapon_allowed(*weapon, family),
{
    if !weapon.designable {
        return false;
    }
    usage_matches(family, opt_as_str(&weapon.usage_class))
}

pub open spec fn spec_weapon_fits_propulsion(weapon: WeaponStats, medium: PropulsionMedium) -> bool {
    match medium {
        PropulsionMedium::Air => weapon.spec_is_vtol(),
        PropulsionMedium::Ground => !weapon.spec_is_vtol(),
        PropulsionMedium::Unknown => true,
    }
}

/// VTOL weapons need air propulsion and ground weapons ground propulsion;
/// an unknown medium accepts both.
pub fn weapon_fits_propulsion(weapon: &WeaponStats, medium: PropulsionMedium) -> (r: bool)
    ensures
        r == spec_weapon_fits_propulsion(*weapon, medium),
{
    let vtol = weapon.is_vtol();
    match medium {
        PropulsionMedium::Air => vtol,
        PropulsionMedium::Ground => !vtol,
        PropulsionMedium::Unknown => true,
    }
}

/// Weapon slots the body allows.
pub fn max_weapon_slots(body: &BodyStats) -> (r: u8)
    ensures
        r == body.weapon_slot_count,
{
    body.weapon_slot_count
}

pub open spec fn spec_propulsion_compatible(body: BodyStats, prop: PropulsionStats) -> Result<
    (),
    Seq<char>,
> {
    if body.cyborg && !spec_is_legged(prop) {
        Err("Cyborg bodies require legged propulsion"@)
    } else if !body.cyborg && spec_is_legged(prop) {
        Err("Legged propulsion is only for cyborg bodies"@)
    } else {
        Ok(())
    }
}

/// Cyborg bodies need legged propulsion, and only they may use it.
pub fn propulsion_compatible(body: &BodyStats, prop: &PropulsionStats) -> (r: Result<(), String>)
    ensures
        match r {
            Ok(_) => spec_propulsion_compatible(*body, *prop) is Ok,
            Err(m) => spec_propulsion_compatible(*body, *prop) == Err::<(), Seq<char>>(m@),
        },
{
    let legged = is_legged(prop);
    if body.cyborg && !legged {
        return Err(owned("Cyborg bodies require legged propulsion"));
    }
    if !body.cyborg && legged {
        return Err(owned("Legged propulsion is only for cyborg bodies"));
    }
    Ok(())
}

pub open spec fn spec_required_turret(droid_type: Option<Seq<char>>) -> Option<Slot> {
    match droid_type {
        Some(t) => {
            let u = upper_seq(t);
            if u == "CONSTRUCT"@ {
                Some(Slot::Construct)
            } else if u == "SENSOR"@ {
                Some(Slot::Sensor)
            } else if u == "ECM"@ {
                Some(Slot::Ecm)
            } else if u == "REPAIR"@ {
                Some(Slot::Repair)
            } else if u == "DROID_COMMAND"@ || u == "COMMAND"@ {
                Some(Slot::Brain)
            } else {
                None
            }
        },
        None => None,
    }
}

/// The non-weapon turret a droid type needs, if any.
pub fn required_turret_for_type(droid_type: Option<&str>) -> (r: Option<Slot>)
    ensures
        r == spec_required_turret(opt_str_view(droid_type)),
{
    match droid_type {
        Some(t) => {
            if upper_is(t, "CONSTRUCT") {
                Some(Slot::Construct)
            } else if upper_is(t, "SENSOR") {
                Some(Slot::Sensor)
            } else if upper_is(t, "ECM") {
                Some(Slot::Ecm)
            } else if upper_is(t, "REPAIR") {
                Some(Slot::Repair)
            } else if upper_is(t, "DROID_COMMAND") || upper_is(t, "COMMAND") {
                Some(Slot::Brain)
            } else {
                None
            }
        },
        None => None,
    }
}

fn cat2(a: &str, b: &str) -> (r: String)
    ensures
        r@ == a@ + b@,
{
    let mut s = owned(a);
    push_str(&mut s, b);
    s
}

fn cat3(a: &str, b: &str, c: &str) -> (r: String)
    ensures
        r@ == a@ + b@ + c@,
{
    let mut s = cat2(a, b);
    push_str(&mut s, c);
    s
}

fn cat4(a: &str, b: &str, c: &str, d: &str) -> (r: String)
    ensures
        r@ == a@ + b@ + c@ + d@,
{
    let mut s = cat3(a, b, c);
    push_str(&mut s, d);
    s
}

fn cat5(a: &str, b: &str, c: &str, d: &str, e: &str) -> (r: String)
    ensures
        r@ == a@ + b@ + c@ + d@ + e@,
{
    let mut s = cat4(a, b, c, d);
    push_str(&mut s, e);
    s
}

fn push_issue(v: &mut Vec<Issue>, issue: Issue)
    ensures
        issues_view(final(v)@) == issues_view(old(v)@).push(issue@),
{
    v.push(issue);
    assert(issues_view(v@) =~= issues_view(old(v)@).push(issue@));
}

/// The droid type as shown in messages, `?` when unset.
pub open spec fn type_text(t: TemplateStats) -> Seq<char> {
    match t.droid_type {
        Some(s) => s@,
        None => "?"@,
    }
}

fn type_str(t: &TemplateStats) -> (r: &str)
    ensures
        r@ == type_text(*t),
{
    match &t.droid_type {
        Some(s) => s.as_str(),
        None => "?",
    }
}

/// The body class as shown in messages, `Droids` when unset.
pub open spec fn class_text(b: BodyStats) -> Seq<char> {
    match b.body_class {
        Some(s) => s@,
        None => "Droids"@,
    }
}

pub open spec fn compat_rule(b: BodyStats, p: PropulsionStats) -> Seq<IssueView> {
    match spec_propulsion_compatible(b, p) {
        Err(m) => seq![error_view(Slot::Propulsion, m)],
        Ok(_) => seq![],
    }
}

pub open spec fn body_rule(t: TemplateStats, b: BodyStats, family: DroidFamily) -> Seq<IssueView> {
    when(
        !spec_body_allowed(b, family),
        error_view(
            Slot::Body,
            "Body '"@ + t.body@ + "' (class "@ + class_text(b) + ") is not allowed for droid type '"@
                + type_text(t) + "'"@,
        ),
    )
}

pub open spec fn buildable_rule(t: TemplateStats, b: BodyStats) -> Seq<IssueView> {
    when(
        b.scavenger || !b.designable,
        error_view(Slot::Body, "Body '"@ + t.body@ + "' is not player-buildable"@),
    )
}

pub open spec fn propulsion_rule(t: TemplateStats, p: PropulsionStats, family: DroidFamily) -> Seq<
    IssueView,
> {
    when(
        !spec_propulsion_allowed(p, family),
        error_view(
            Slot::Propulsion,
            "Propulsion '"@ + t.propulsion@ + "' is not allowed for droid type '"@ + type_text(t)
                + "'"@,
        ),
    )
}

/// Findings about weapon `i` of the template.
pub open spec fn weapon_rule(
    t: TemplateStats,
    db: StatsDatabase,
    family: DroidFamily,
    medium: PropulsionMedium,
    i: int,
) -> Seq<IssueView> {
    let w_id = t.weapons@[i]@;
    if w_id.len() == 0 {
        seq![]
    } else {
        match spec_get(db.weapons@, w_id) {
            None => seq![],
            Some(w) => when(
                !spec_weapon_allowed(w, family),
                error_view(
                    Slot::Weapon(i as u8),
                    "Weapon '"@ + w_id + "' is not selectable for droid type '"@ + type_text(t)
                        + "'"@,
                ),
            ) + when(
                !spec_weapon_fits_propulsion(w, medium),
                error_view(
                    Slot::Weapon(i as u8),
                    if w.spec_is_vtol() {
                        "VTOL weapon requires VTOL propulsion"@
                    } else {
                        "Ground weapon cannot be used on VTOL propulsion"@
                    },
                ),
            ),
        }
    }
}

/// Findings about the first `n` weapons, in order.
pub open spec fn weapon_rules(
    t: TemplateStats,
    db: StatsDatabase,
    family: DroidFamily,
    medium: PropulsionMedium,
    n: int,
) -> Seq<IssueView>
    decreases n,
{
    if n <= 0 {
        seq![]
    } else {
        weapon_rules(t, db, family, medium, n - 1) + weapon_rule(t, db, family, medium, n - 1)
    }
}

pub open spec fn slot_rule(t: TemplateStats, b: BodyStats) -> Seq<IssueView> {
    when(
        t.weapons@.len() > b.weapon_slot_count,
        error_view(
            Slot::Weapon(b.weapon_slot_count),
            "Body '"@ + t.body@ + "' has "@ + decimal(b.weapon_slot_count as nat)
                + " weapon slot(s); template has "@ + decimal(t.weapons@.len()),
        ),
    )
}

/// An unknown-weapon finding for each non-empty weapon id among the first
/// `n` that the database lacks.
pub open spec fn unknown_weapon_rules(t: TemplateStats, db: StatsDatabase, n: int) -> Seq<IssueView>
    decreases n,
{
    if n <= 0 {
        seq![]
    } else {
        let w = t.weapons@[n - 1]@;
        unknown_weapon_rules(t, db, n - 1) + when(
            w.len() > 0 && !has_key(db.weapons@, w),
            error_view(Slot::Weapon((n - 1) as u8), "Unknown weapon '"@ + w + "'"@),
        )
    }
}

pub open spec fn unknown_turret_rule(
    o: Option<String>,
    table: Seq<TurretStats>,
    slot: Slot,
    what: Seq<char>,
) -> Seq<IssueView> {
    match o {
        Some(s) => when(
            !has_key(table, s@),
            error_view(slot, "Unknown "@ + what + " '"@ + s@ + "'"@),
        ),
        None => seq![],
    }
}

pub open spec fn turret_rules(t: TemplateStats, db: StatsDatabase) -> Seq<IssueView> {
    unknown_turret_rule(t.sensor, db.sensor@, Slot::Sensor, "sensor"@) + unknown_turret_rule(
        t.ecm,
        db.ecm@,
        Slot::Ecm,
        "ECM"@,
    ) + unknown_turret_rule(t.repair, db.repair@, Slot::Repair, "repair turret"@)
        + unknown_turret_rule(t.construct, db.construct@, Slot::Construct, "constructor"@)
        + unknown_turret_rule(t.brain, db.brain@, Slot::Brain, "brain"@)
}

/// Whether the turret a droid type requires is fitted, and its name.
pub open spec fn required_fitting(t: TemplateStats, slot: Slot) -> (bool, Seq<char>) {
    match slot {
        Slot::Construct => (t.construct is Some, "construction turret"@),
        Slot::Sensor => (t.sensor is Some, "sensor turret"@),
        Slot::Ecm => (t.ecm is Some, "ECM turret"@),
        Slot::Repair => (t.repair is Some, "repair turret"@),
        Slot::Brain => (t.brain is Some, "commander brain"@),
        _ => (true, ""@),
    }
}

pub open spec fn required_rule(t: TemplateStats) -> Seq<IssueView> {
    match spec_required_turret(opt_view(t.droid_type)) {
        Some(slot) => when(
            !required_fitting(t, slot).0,
            error_view(
                slot,
                "Droid type '"@ + type_text(t) + "' requires a "@ + required_fitting(t, slot).1,
            ),
        ),
        None => seq![],
    }
}

pub open spec fn has_weapons(t: TemplateStats) -> bool {
    exists|i: int| 0 <= i < t.weapons@.len() && t.weapons@[i]@.len() > 0
}

pub open spec fn has_system_turret(t: TemplateStats) -> bool {
    t.sensor is Some || t.ecm is Some || t.repair is Some || t.construct is Some
}

pub open spec fn is_transporter_type(t: TemplateStats) -> bool {
    t.droid_type matches Some(s) && (s@ == "TRANSPORTER"@ || s@ == "SUPERTRANSPORTER"@)
}

pub open spec fn loadout_rules(t: TemplateStats, medium: PropulsionMedium) -> Seq<IssueView> {
    when(
        t.brain is Some && t.weapons@.len() == 0,
        error_view(Slot::Weapon(0), "Commander droids need at least one weapon"@),
    ) + when(
        is_transporter_type(t) && medium != PropulsionMedium::Air,
        error_view(Slot::Propulsion, "Transporters require VTOL (LIFT) propulsion"@),
    ) + when(
        medium == PropulsionMedium::Air && has_system_turret(t),
        error_view(Slot::General, "VTOL droids cannot mount system turrets"@),
    ) + when(
        has_weapons(t) && has_system_turret(t),
        error_view(
            Slot::General,
            "Cannot have both weapons and a system turret (sensor/ECM/repair/construct)"@,
        ),
    ) + when(
        !(has_weapons(t) || has_system_turret(t) || t.brain is Some),
        warning_view(Slot::General, "Droid has no turrets, will spawn unarmed"@),
    )
}

/// Findings for a template whose body and propulsion both exist.
pub open spec fn component_issues(
    t: TemplateStats,
    db: StatsDatabase,
    b: BodyStats,
    p: PropulsionStats,
) -> Seq<IssueView> {
    let family = spec_droid_family(opt_view(t.droid_type));
    let medium = spec_propulsion_medium(p);
    compat_rule(b, p) + body_rule(t, b, family) + buildable_rule(t, b) + propulsion_rule(
        t,
        p,
        family,
    ) + weapon_rules(t, db, family, medium, t.weapons@.len() as int) + slot_rule(t, b)
        + unknown_weapon_rules(t, db, t.weapons@.len() as int) + turret_rules(t, db)
        + required_rule(t) + loadout_rules(t, medium)
}

/// Every finding for a template, in the order they are reported.
pub open spec fn spec_validate(t: TemplateStats, db: StatsDatabase) -> Seq<IssueView> {
    match spec_get(db.bodies@, t.body@) {
        None => seq![
            error_view(
                Slot::Body,
                if t.body@.len() == 0 {
                    "No body selected"@
                } else {
                    "Unknown body '"@ + t.body@ + "'"@
                },
            ),
        ],
        Some(b) => match spec_get(db.propulsion@, t.propulsion@) {
            None => seq![
                error_view(
                    Slot::Propulsion,
                    if t.propulsion@.len() == 0 {
                        "No propulsion selected"@
                    } else {
                        "Unknown propulsion '"@ + t.propulsion@ + "'"@
                    },
                ),
            ],
            Some(p) => component_issues(t, db, b, p),
        },
    }
}

fn check_components(
    t: &TemplateStats,
    b: &BodyStats,
    p: &PropulsionStats,
    family: DroidFamily,
    issues: &mut Vec<Issue>,
)
    ensures
        issues_view(final(issues)@) == issues_view(old(issues)@) + compat_rule(*b, *p) + body_rule(
            *t,
            *b,
            family,
        ) + buildable_rule(*t, *b) + propulsion_rule(*t, *p, family),
{
    let ghost v0 = issues_view(issues@);
    match propulsion_compatible(b, p) {
        Err(m) => push_issue(issues, Issue::error(Slot::Propulsion, m)),
        Ok(_) => {},
    }
    assert(issues_view(issues@) =~= v0 + compat_rule(*b, *p));
    let ghost v1 = issues_view(issues@);
    if !body_allowed(b, family) {
        let class = match &b.body_class {
            Some(c) => c.as_str(),
            None => "Droids",
        };
        let head = cat3("Body '", t.body.as_str(), "' (class ");
        let mut msg = head;
        push_str(&mut msg, class);
        push_str(&mut msg, ") is not allowed for droid type '");
        push_str(&mut msg, type_str(t));
        push_str(&mut msg, "'");
        push_issue(issues, Issue::error(Slot::Body, msg));
    }
    assert(issues_view(issues@) =~= v1 + body_rule(*t, *b, family));
    let ghost v2 = issues_view(issues@);
    if b.scavenger || !b.designable {
        let msg = cat3("Body '", t.body.as_str(), "' is not player-buildable");
        push_issue(issues, Issue::error(Slot::Body, msg));
    }
    assert(issues_view(issues@) =~= v2 + buildable_rule(*t, *b));
    let ghost v3 = issues_view(issues@);
    if !propulsion_allowed(p, family) {
        let msg = cat5(
            "Propulsion '",
            t.propulsion.as_str(),
            "' is not allowed for droid type '",
            type_str(t),
            "'",
        );
        push_issue(issues, Issue::error(Slot::Propulsion, msg));
    }
    assert(issues_view(issues@) =~= v3 + propulsion_rule(*t, *p, family));
}

fn check_weapons(
    t: &TemplateStats,
    db: &StatsDatabase,
    family: DroidFamily,
    medium: PropulsionMedium,
    issues: &mut Vec<Issue>,
)
    ensures
        issues_view(final(issues)@) == issues_view(old(issues)@) + weapon_rules(
            *t,
            *db,
            family,
            medium,
            t.weapons@.len() as int,
        ),
{
    let n = t.weapons.len();
    let mut i: usize = 0;
    while i < n
        invariant
            n == t.weapons@.len(),
            i <= n,
            issues_view(issues@) == issues_view(old(issues)@) + weapon_rules(
                *t,
                *db,
                family,
                medium,
                i as int,
            ),
        decreases n - i,
    {
        let ghost before = issues_view(issues@);
        let w_id = t.weapons[i].as_str();
        if !w_id.is_empty() {
            match find_key(&db.weapons, w_id) {
                Some(k) => {
                    let w = &db.weapons[k];
                    if !weapon_allowed(w, family) {
                        let msg = cat5(
                            "Weapon '",
                            w_id,
                            "' is not selectable for droid type '",
                            type_str(t),
                            "'",
                        );
                        push_issue(issues, Issue::error(Slot::Weapon(i as u8), msg));
                    }
                    let ghost mid = issues_view(issues@);
                    if !weapon_fits_propulsion(w, medium) {
                        let hint = if w.is_vtol() {
                            "VTOL weapon requires VTOL propulsion"
                        } else {
                            "Ground weapon cannot be used on VTOL propulsion"
                        };
                        push_issue(issues, Issue::error(Slot::Weapon(i as u8), owned(hint)));
                    }
                    assert(issues_view(issues@) =~= before + weapon_rule(
                        *t,
                        *db,
                        family,
                        medium,
                        i as int,
                    ));
                },
                None => {
                    assert(issues_view(issues@) =~= before + weapon_rule(
                        *t,
                        *db,
                        family,
                        medium,
                        i as int,
                    ));
                },
            }
        } else {
            assert(issues_view(issues@) =~= before + weapon_rule(*t, *db, family, medium, i as int));
        }
        assert(weapon_rules(*t, *db, family, medium, i as int + 1) == weapon_rules(
            *t,
            *db,
            family,
            medium,
            i as int,
        ) + weapon_rule(*t, *db, family, medium, i as int));
        i = i + 1;
    }
}

fn check_slots_and_unknown_weapons(t: &TemplateStats, b: &BodyStats, db: &StatsDatabase, issues: &mut Vec<Issue>)
    ensures
        issues_view(final(issues)@) == issues_view(old(issues)@) + slot_rule(*t, *b)
            + unknown_weapon_rules(*t, *db, t.weapons@.len() as int),
{
    let slots = max_weapon_slots(b);
    let n = t.weapons.len();
    if n > slots as usize {
        let mut msg = cat3("Body '", t.body.as_str(), "' has ");
        push_u64(&mut msg, slots as u64);
        push_str(&mut msg, " weapon slot(s); template has ");
        push_u64(&mut msg, n as u64);
        push_issue(issues, Issue::error(Slot::Weapon(slots), msg));
    }
    assert(issues_view(issues@) =~= issues_view(old(issues)@) + slot_rule(*t, *b));
    let ghost v1 = issues_view(issues@);
    let mut i: usize = 0;
    while i < n
        invariant
            n == t.weapons@.len(),
            i <= n,
            issues_view(issues@) == v1 + unknown_weapon_rules(*t, *db, i as int),
        decreases n - i,
    {
        let ghost before = issues_view(issues@);
        let w = t.weapons[i].as_str();
        if !w.is_empty() && !contains_key(&db.weapons, w) {
            let msg = cat3("Unknown weapon '", w, "'");
            push_issue(issues, Issue::error(Slot::Weapon(i as u8), msg));
        }
        assert(issues_view(issues@) =~= v1 + unknown_weapon_rules(*t, *db, i as int + 1));
        i = i + 1;
    }
}

fn check_unknown_turret(
    o: &Option<String>,
    table: &Vec<TurretStats>,
    slot: Slot,
    what: &str,
    issues: &mut Vec<Issue>,
)
    ensures
        issues_view(final(issues)@) == issues_view(old(issues)@) + unknown_turret_rule(
            *o,
            table@,
            slot,
            what@,
        ),
{
    match o {
        Some(s) => {
            if !contains_key(table, s.as_str()) {
                let msg = cat5("Unknown ", what, " '", s.as_str(), "'");
                push_issue(issues, Issue::error(slot, msg));
            }
        },
        None => {},
    }
    assert(issues_view(issues@) =~= issues_view(old(issues)@) + unknown_turret_rule(
        *o,
        table@,
        slot,
        what@,
    ));
}

fn check_required_turret(t: &TemplateStats, issues: &mut Vec<Issue>)
    ensures
        issues_view(final(issues)@) == issues_view(old(issues)@) + required_rule(*t),
{
    match required_turret_for_type(opt_as_str(&t.droid_type)) {
        Some(required) => {
            let (present, slot_name) = match required {
                Slot::Construct => (t.construct.is_some(), "construction turret"),
                Slot::Sensor => (t.sensor.is_some(), "sensor turret"),
                Slot::Ecm => (t.ecm.is_some(), "ECM turret"),
                Slot::Repair => (t.repair.is_some(), "repair turret"),
                Slot::Brain => (t.brain.is_some(), "commander brain"),
                _ => (true, ""),
            };
            if !present {
                let msg = cat4("Droid type '", type_str(t), "' requires a ", slot_name);
                push_issue(issues, Issue::error(required, msg));
            }
        },
        None => {},
    }
    assert(issues_view(issues@) =~= issues_view(old(issues)@) + required_rule(*t));
}

fn any_weapon(t: &TemplateStats) -> (r: bool)
    ensures
        r == has_weapons(*t),
{
    let mut i: usize = 0;
    while i < t.weapons.len()
        invariant
            i <= t.weapons@.len(),
            forall|j: int| 0 <= j < i ==> t.weapons@[j]@.len() == 0,
        decreases t.weapons@.len() - i,
    {
        if !t.weapons[i].as_str().is_empty() {
            return true;
        }
        i = i + 1;
    }
    false
}

fn check_loadout(t: &TemplateStats, medium: PropulsionMedium, issues: &mut Vec<Issue>)
    ensures
        issues_view(final(issues)@) == issues_view(old(issues)@) + loadout_rules(*t, medium),
{
    let ghost v0 = issues_view(issues@);
    if t.brain.is_some() && t.weapons.len() == 0 {
        push_issue(issues, Issue::error(Slot::Weapon(0), owned("Commander droids need at least one weapon")));
    }
    let is_transporter = match &t.droid_type {
        Some(s) => str_eq(s.as_str(), "TRANSPORTER") || str_eq(s.as_str(), "SUPERTRANSPORTER"),
        None => false,
    };
    if is_transporter && medium != PropulsionMedium::Air {
        push_issue(issues, Issue::error(Slot::Propulsion, owned("Transporters require VTOL (LIFT) propulsion")));
    }
    let has_system = t.sensor.is_some() || t.ecm.is_some() || t.repair.is_some() || t.construct.is_some();
    if medium == PropulsionMedium::Air && has_system {
        push_issue(issues, Issue::error(Slot::General, owned("VTOL droids cannot mount system turrets")));
    }
    let armed = any_weapon(t);
    if armed && has_system {
        push_issue(
            issues,
            Issue::error(
                Slot::General,
                owned("Cannot have both weapons and a system turret (sensor/ECM/repair/construct)"),
            ),
        );
    }
    if !(armed || has_system || t.brain.is_some()) {
        push_issue(issues, Issue::warn(Slot::General, owned("Droid has no turrets, will spawn unarmed")));
    }
    assert(issues_view(issues@) =~= v0 + loadout_rules(*t, medium));
}

fn check_unknown_turrets(t: &TemplateStats, db: &StatsDatabase, issues: &mut Vec<Issue>)
    ensures
        issues_view(final(issues)@) == issues_view(old(issues)@) + turret_rules(*t, *db),
{
    let ghost v1 = issues_view(issues@);
    check_unknown_turret(&t.sensor, &db.sensor, Slot::Sensor, "sensor", issues);
    check_unknown_turret(&t.ecm, &db.ecm, Slot::Ecm, "ECM", issues);
    check_unknown_turret(&t.repair, &db.repair, Slot::Repair, "repair turret", issues);
    check_unknown_turret(&t.construct, &db.construct, Slot::Construct, "constructor", issues);
    check_unknown_turret(&t.brain, &db.brain, Slot::Brain, "brain", issues);
    assert(issues_view(issues@) =~= v1 + turret_rules(*t, *db));
}

#[verifier::rlimit(100)]
fn check_all_components(
    t: &TemplateStats,
    db: &StatsDatabase,
    body: &BodyStats,
    prop: &PropulsionStats,
    issues: &mut Vec<Issue>,
)
    ensures
        issues_view(final(issues)@) == issues_view(old(issues)@) + component_issues(
            *t,
            *db,
            *body,
            *prop,
        ),
{
    let family = droid_family(opt_as_str(&t.droid_type));
    let medium = propulsion_medium(prop);
    let ghost v0 = issues_view(issues@);
    check_components(t, body, prop, family, issues);
    let ghost va = issues_view(issues@);
    check_weapons(t, db, family, medium, issues);
    let ghost vb = issues_view(issues@);
    check_slots_and_unknown_weapons(t, body, db, issues);
    let ghost v1 = issues_view(issues@);
    check_unknown_turrets(t, db, issues);
    let ghost v2 = issues_view(issues@);
    check_required_turret(t, issues);
    let ghost v3 = issues_view(issues@);
    check_loadout(t, medium, issues);
    let ghost v4 = issues_view(issues@);
    proof {
        let ghost fam = spec_droid_family(opt_view(t.droid_type));
        let ghost med = spec_propulsion_medium(*prop);
        let a = compat_rule(*body, *prop) + body_rule(*t, *body, fam) + buildable_rule(*t, *body)
            + propulsion_rule(*t, *prop, fam);
        let w = weapon_rules(*t, *db, fam, med, t.weapons@.len() as int);
        let su = slot_rule(*t, *body) + unknown_weapon_rules(*t, *db, t.weapons@.len() as int);
        let tu = turret_rules(*t, *db);
        let re = required_rule(*t);
        let lo = loadout_rules(*t, med);
        assert(va == v0 + a);
        assert(vb == va + w);
        assert(v1 == vb + su);
        assert(v2 == v1 + tu);
        assert(v3 == v2 + re);
        assert(v4 == v3 + lo);
        assert(component_issues(*t, *db, *body, *prop) == a + w + su + tu + re + lo);
        assert(v4 =~= v0 + (a + w + su + tu + re + lo));
    }
}

/// Validate a template against the stats database: every finding, in
/// order. No error among them means the template can be saved.
pub fn validate(template: &TemplateStats, db: &StatsDatabase) -> (r: Vec<Issue>)
    ensures
        issues_view(r@) == spec_validate(*template, *db),
{
    let mut issues: Vec<Issue> = Vec::new();
    let t = template;
    let bi = match find_key(&db.bodies, t.body.as_str()) {
        Some(i) => i,
        None => {
            let msg = if t.body.as_str().is_empty() {
                owned("No body selected")
            } else {
                cat3("Unknown body '", t.body.as_str(), "'")
            };
            push_issue(&mut issues, Issue::error(Slot::Body, msg));
            assert(issues_view(issues@) =~= spec_validate(*template, *db));
            return issues;
        },
    };
    let pi = match find_key(&db.propulsion, t.propulsion.as_str()) {
        Some(i) => i,
        None => {
            let msg = if t.propulsion.as_str().is_empty() {
                owned("No propulsion selected")
            } else {
                cat3("Unknown propulsion '", t.propulsion.as_str(), "'")
            };
            push_issue(&mut issues, Issue::error(Slot::Propulsion, msg));
            assert(issues_view(issues@) =~= spec_validate(*template, *db));
            return issues;
        },
    };
    let body = &db.bodies[bi];
    let prop = &db.propulsion[pi];
    check_all_components(t, db, body, prop, &mut issues);
    assert(issues_view(issues@) =~= spec_validate(*template, *db));
    issues
}

/// No issue is an error.
pub open spec fn spec_save_ready(issues: Seq<IssueView>) -> bool {
    forall|i: int| 0 <= i < issues.len() ==> issues[i].severity != Severity::Error
}

/// True when no issue has error severity.
pub fn is_save_ready(issues: &[Issue]) -> (r: bool)
    ensures
        r == spec_save_ready(issues_view(issues@)),
{
    let mut i: usize = 0;
    while i < issues.len()
        invariant
            i <= issues@.len(),
            forall|j: int| 0 <= j < i ==> issues@[j].severity != Severity::Error,
        decreases issues@.len() - i,
    {
        if issues[i].severity == Severity::Error {
            assert(issues_view(issues@)[i as int].severity == Severity::Error);
            return false;
        }
        i = i + 1;
    }
    true
}


/// Which slot the user is editing in the designer grid.
#[derive(Debug, Clone, Copy, PartialEq, Eq, Structural)]
pub enum SlotTab {
    Body,
    Propulsion,
    Weapon(u8),
    /// Unified sensor / ECM / repair / construct / brain slot.
    Turret,
}

/// Sub-category within the unified turret slot.
#[derive(Debug, Clone, Copy, PartialEq, Eq, Structural)]
pub enum TurretKind {
    Sensor,
    Ecm,
    Repair,
    Construct,
    Brain,
}

impl SlotTab {
    pub open spec fn spec_icon(self) -> Seq<char> {
        match self {
            SlotTab::Body => "\u{1F9CD}"@,
            SlotTab::Propulsion => "\u{2699}"@,
            SlotTab::Weapon(_) => "\u{2694}"@,
            SlotTab::Turret => "\u{1F4E1}"@,
        }
    }

    /// Glyph shown when the slot's sprite cannot be loaded.
    pub fn icon(self) -> (r: &'static str)
        ensures
            r@ == self.spec_icon(),
    {
        match self {
            SlotTab::Body => "\u{1F9CD}",
            SlotTab::Propulsion => "\u{2699}",
            SlotTab::Weapon(_) => "\u{2694}",
            SlotTab::Turret => "\u{1F4E1}",
        }
    }

    pub open spec fn spec_sprite_filename(self) -> Seq<char> {
        match self {
            SlotTab::Body => "image_des_body.png"@,
            SlotTab::Propulsion => "image_des_propulsion.png"@,
            SlotTab::Weapon(_) => "image_des_weapons.png"@,
            SlotTab::Turret => "image_des_systems.png"@,
        }
    }

    /// File name of the design-screen sprite for the slot.
    pub fn sprite_filename(self) -> (r: &'static str)
        ensures
            r@ == self.spec_sprite_filename(),
    {
        match self {
            SlotTab::Body => "image_des_body.png",
            SlotTab::Propulsion => "image_des_propulsion.png",
            SlotTab::Weapon(_) => "image_des_weapons.png",
            SlotTab::Turret => "image_des_systems.png",
        }
    }

    pub open spec fn spec_label(self) -> Seq<char> {
        match self {
            SlotTab::Body => "Body"@,
            SlotTab::Propulsion => "Propulsion"@,
            SlotTab::Weapon(i) => "W"@ + decimal((i + 1) as nat),
            SlotTab::Turret => "Systems"@,
        }
    }

    /// Button label; weapon slots are numbered from 1.
    pub fn label(self) -> (r: String)
        requires
            self matches SlotTab::Weapon(i) ==> i < 255,
        ensures
            r@ == self.spec_label(),
    {
        match self {
            SlotTab::Body => owned("Body"),
            SlotTab::Propulsion => owned("Propulsion"),
            SlotTab::Weapon(i) => {
                let mut s = owned("W");
                push_u64(&mut s, (i + 1) as u64);
                s
            },
            SlotTab::Turret => owned("Systems"),
        }
    }

    pub open spec fn spec_tooltip(self) -> Seq<char> {
        match self {
            SlotTab::Body => "Chassis: hitpoints, armour, weapon slots"@,
            SlotTab::Propulsion => "Locomotion: wheels, tracks, hover, VTOL"@,
            SlotTab::Weapon(_) => "Weapon turret"@,
            SlotTab::Turret => "Sensor, ECM, repair, construct, or commander"@,
        }
    }

    /// Hover text for the slot button.
    pub fn tooltip(self) -> (r: &'static str)
        ensures
            r@ == self.spec_tooltip(),
    {
        match self {
            SlotTab::Body => "Chassis: hitpoints, armour, weapon slots",
            SlotTab::Propulsion => "Locomotion: wheels, tracks, hover, VTOL",
            SlotTab::Weapon(_) => "Weapon turret",
            SlotTab::Turret => "Sensor, ECM, repair, construct, or commander",
        }
    }
}

/// What a designer session ended with.
#[derive(Debug)]
pub struct DesignerOutcome {
    /// Id of the template just saved (inserted or overwritten).
    pub saved_template_id: Option<String>,
    pub cancelled: bool,
}

impl Default for DesignerOutcome {
    fn default() -> (r: Self)
        ensures
            r.saved_template_id is None,
            !r.cancelled,
    {
        DesignerOutcome { saved_template_id: None, cancelled: false }
    }
}

/// A blank weapon-droid template.
pub fn empty_template() -> (r: TemplateStats)
    ensures
        r.id@.len() == 0,
        r.body@.len() == 0,
        r.propulsion@.len() == 0,
        r.weapons@.len() == 0,
        r.name is None,
        opt_view(r.droid_type) == Some("WEAPON"@),
        r.construct is None,
        r.sensor is None,
        r.repair is None,
        r.ecm is None,
        r.brain is None,
{
    TemplateStats {
        id: String::new(),
        body: String::new(),
        propulsion: String::new(),
        weapons: Vec::new(),
        name: None,
        droid_type: Some(owned("WEAPON")),
        construct: None,
        sensor: None,
        repair: None,
        ecm: None,
        brain: None,
    }
}

pub open spec fn spec_derive_droid_type(t: TemplateStats, db: StatsDatabase) -> Seq<char> {
    let body = spec_get(db.bodies@, t.body@);
    let cyborg = body matches Some(b) && b.cyborg;
    let super_cyborg = body matches Some(b) && b.super_cyborg;
    let transporter = body matches Some(b) && b.transporter;
    if transporter {
        "TRANSPORTER"@
    } else if super_cyborg {
        "CYBORG_SUPER"@
    } else if cyborg {
        if t.construct is Some {
            "CYBORG_CONSTRUCT"@
        } else if t.repair is Some {
            "CYBORG_REPAIR"@
        } else {
            "CYBORG"@
        }
    } else if t.brain is Some {
        "DROID_COMMAND"@
    } else if t.construct is Some {
        "CONSTRUCT"@
    } else if t.repair is Some {
        "REPAIR"@
    } else if t.sensor is Some {
        "SENSOR"@
    } else if t.ecm is Some {
        "ECM"@
    } else {
        "WEAPON"@
    }
}

/// The droid type that a loadout implies: the body decides transporters
/// and cyborgs, otherwise the system turret fitted does.
pub fn derive_droid_type(t: &TemplateStats, db: &StatsDatabase) -> (r: &'static str)
    ensures
        r@ == spec_derive_droid_type(*t, *db),
{
    let (cyborg, super_cyborg, transporter) = match find_key(&db.bodies, t.body.as_str()) {
        Some(i) => (db.bodies[i].cyborg, db.bodies[i].super_cyborg, db.bodies[i].transporter),
        None => (false, false, false),
    };
    if transporter {
        return "TRANSPORTER";
    }
    if super_cyborg {
        return "CYBORG_SUPER";
    }
    if cyborg {
        if t.construct.is_some() {
            return "CYBORG_CONSTRUCT";
        }
        if t.repair.is_some() {
            return "CYBORG_REPAIR";
        }
        return "CYBORG";
    }
    if t.brain.is_some() {
        return "DROID_COMMAND";
    }
    if t.construct.is_some() {
        return "CONSTRUCT";
    }
    if t.repair.is_some() {
        return "REPAIR";
    }
    if t.sensor.is_some() {
        return "SENSOR";
    }
    if t.ecm.is_some() {
        return "ECM";
    }
    "WEAPON"
}

/// First position at or after `i` of a body selectable for `family`.
pub open spec fn first_selectable_body(s: Seq<BodyStats>, family: DroidFamily, i: int) -> Option<int>
    decreases s.len() - i,
{
    if i < 0 || i >= s.len() {
        None
    } else if spec_body_selectable(s[i], family) {
        Some(i)
    } else {
        first_selectable_body(s, family, i + 1)
    }
}

/// First position at or after `i` of a propulsion allowed for `family`.
pub open spec fn first_allowed_propulsion(
    s: Seq<PropulsionStats>,
    family: DroidFamily,
    i: int,
) -> Option<int>
    decreases s.len() - i,
{
    if i < 0 || i >= s.len() {
        None
    } else if spec_propulsion_allowed(s[i], family) {
        Some(i)
    } else {
        first_allowed_propulsion(s, family, i + 1)
    }
}

fn find_selectable_body(bodies: &Vec<BodyStats>, family: DroidFamily) -> (r: Option<usize>)
    ensures
        match r {
            Some(i) => first_selectable_body(bodies@, family, 0) == Some(i as int) && i < bodies@.len(),
            None => first_selectable_body(bodies@, family, 0) is None,
        },
{
    let mut i: usize = 0;
    while i < bodies.len()
        invariant
            i <= bodies@.len(),
            first_selectable_body(bodies@, family, 0) == first_selectable_body(bodies@, family, i as int),
        decreases bodies@.len() - i,
    {
        if body_selectable(&bodies[i], family) {
            return Some(i);
        }
        i = i + 1;
    }
    None
}

fn find_allowed_propulsion(props: &Vec<PropulsionStats>, family: DroidFamily) -> (r: Option<usize>)
    ensures
        match r {
            Some(i) => first_allowed_propulsion(props@, family, 0) == Some(i as int) && i < props@.len(),
            None => first_allowed_propulsion(props@, family, 0) is None,
        },
{
    let mut i: usize = 0;
    while i < props.len()
        invariant
            i <= props@.len(),
            first_allowed_propulsion(props@, family, 0) == first_allowed_propulsion(props@, family, i as int),
        decreases props@.len() - i,
    {
        if propulsion_allowed(&props[i], family) {
            return Some(i);
        }
        i = i + 1;
    }
    None
}

proof fn lemma_first_selectable_body(s: Seq<BodyStats>, family: DroidFamily, i: int)
    requires
        0 <= i <= s.len(),
    ensures
        match first_selectable_body(s, family, i) {
            Some(k) => i <= k < s.len() && spec_body_selectable(s[k], family),
            None => forall|j: int| i <= j < s.len() ==> !spec_body_selectable(#[trigger] s[j], family),
        },
    decreases s.len() - i,
{
    if i < s.len() && !spec_body_selectable(s[i], family) {
        lemma_first_selectable_body(s, family, i + 1);
    }
}

proof fn lemma_first_allowed_propulsion(s: Seq<PropulsionStats>, family: DroidFamily, i: int)
    requires
        0 <= i <= s.len(),
    ensures
        match first_allowed_propulsion(s, family, i) {
            Some(k) => i <= k < s.len() && spec_propulsion_allowed(s[k], family),
            None => forall|j: int| i <= j < s.len() ==> !spec_propulsion_allowed(#[trigger] s[j], family),
        },
    decreases s.len() - i,
{
    if i < s.len() && !spec_propulsion_allowed(s[i], family) {
        lemma_first_allowed_propulsion(s, family, i + 1);
    }
}

/// Retargeting leaves a template with parts that suit its family: its body
/// is a selectable body of the database and its propulsion an allowed one,
/// each left empty only when the database offers none.
pub proof fn lemma_retarget_suits_family(t: TemplateStats, db: StatsDatabase, family: DroidFamily)
    requires
        keys_unique(db.bodies@),
        keys_unique(db.propulsion@),
    ensures
        ({
            let b = retarget_body(t, db, family);
            (spec_get(db.bodies@, b) matches Some(body) && spec_body_selectable(body, family)) || (b.len() == 0
                && forall|j: int| 0 <= j < db.bodies@.len() ==> !spec_body_selectable(#[trigger] db.bodies@[j], family))
        }),
        ({
            let p = retarget_propulsion(t, db, family);
            (spec_get(db.propulsion@, p) matches Some(prop) && spec_propulsion_allowed(prop, family)) || (p.len() == 0
                && forall|j: int| 0 <= j < db.propulsion@.len() ==> !spec_propulsion_allowed(#[trigger] db.propulsion@[j], family))
        }),
{
    lemma_first_selectable_body(db.bodies@, family, 0);
    lemma_first_allowed_propulsion(db.propulsion@, family, 0);
    match first_selectable_body(db.bodies@, family, 0) {
        Some(k) => {
            assert(is_first_key(db.bodies@, db.bodies@[k].id@, k)) by {
                assert forall|j: int| 0 <= j < k implies db.bodies@[j].key_view() != db.bodies@[k].id@ by {
                    assert(db.bodies@[j].key_view() != db.bodies@[k].key_view());
                }
            }
            lemma_first_key_unique(db.bodies@, db.bodies@[k].id@, k);
        },
        None => {},
    }
    match first_allowed_propulsion(db.propulsion@, family, 0) {
        Some(k) => {
            assert(is_first_key(db.propulsion@, db.propulsion@[k].id@, k)) by {
                assert forall|j: int| 0 <= j < k implies db.propulsion@[j].key_view() != db.propulsion@[k].id@ by {
                    assert(db.propulsion@[j].key_view() != db.propulsion@[k].key_view());
                }
            }
            lemma_first_key_unique(db.propulsion@, db.propulsion@[k].id@, k);
        },
        None => {},
    }
}

/// The body a template keeps or gets after retargeting to `family`.
pub open spec fn retarget_body(t: TemplateStats, db: StatsDatabase, family: DroidFamily) -> Seq<char> {
    let keep = spec_get(db.bodies@, t.body@) matches Some(b) && spec_body_selectable(b, family);
    if keep {
        t.body@
    } else {
        match first_selectable_body(db.bodies@, family, 0) {
            Some(i) => db.bodies@[i].id@,
            None => Seq::empty(),
        }
    }
}

/// The propulsion a template keeps or gets after retargeting to `family`.
pub open spec fn retarget_propulsion(t: TemplateStats, db: StatsDatabase, family: DroidFamily) -> Seq<
    char,
> {
    let keep = spec_get(db.propulsion@, t.propulsion@) matches Some(p) && spec_propulsion_allowed(
        p,
        family,
    );
    if keep {
        t.propulsion@
    } else {
        match first_allowed_propulsion(db.propulsion@, family, 0) {
            Some(i) => db.propulsion@[i].id@,
            None => Seq::empty(),
        }
    }
}

/// Medium of the propulsion with id `prop`, `Unknown` when it is missing.
pub open spec fn medium_of(db: StatsDatabase, prop: Seq<char>) -> PropulsionMedium {
    match spec_get(db.propulsion@, prop) {
        Some(p) => spec_propulsion_medium(p),
        None => PropulsionMedium::Unknown,
    }
}

/// A weapon slot survives retargeting when empty, or when its weapon is
/// known, allowed for the family and fits the propulsion medium.
pub open spec fn weapon_kept(db: StatsDatabase, family: DroidFamily, medium: PropulsionMedium, w: String) -> bool {
    w@.len() == 0 || (spec_get(db.weapons@, w@) matches Some(x) && spec_weapon_allowed(x, family)
        && spec_weapon_fits_propulsion(x, medium))
}

/// A system turret survives retargeting when it is known and its usage
/// class is `Cyborg` exactly when the family is a cyborg family.
pub open spec fn turret_kept(table: Seq<TurretStats>, id: Seq<char>, family: DroidFamily) -> bool {
    spec_get(table, id) matches Some(st) && ((opt_view(st.usage_class) == Some("Cyborg"@)) == (
    family == DroidFamily::Cyborg || family == DroidFamily::SuperCyborg))
}

pub open spec fn retarget_turret(o: Option<String>, table: Seq<TurretStats>, family: DroidFamily) -> Option<String> {
    match o {
        Some(s) => if turret_kept(table, s@, family) {
            o
        } else {
            None
        },
        None => None,
    }
}

fn retarget_turret_slot(o: &mut Option<String>, table: &Vec<TurretStats>, family: DroidFamily)
    ensures
        *final(o) == retarget_turret(*old(o), table@, family),
{
    let ok = match o {
        Some(s) => {
            let want_cyborg = family == DroidFamily::Cyborg || family == DroidFamily::SuperCyborg;
            match find_key(table, s.as_str()) {
                Some(i) => {
                    let is_cyborg = opt_is(opt_as_str(&table[i].usage_class), "Cyborg");
                    is_cyborg == want_cyborg
                },
                None => false,
            }
        },
        None => true,
    };
    if !ok {
        *o = None;
    }
}

/// Swap in parts that suit the template's (new) family: a body and a
/// propulsion that are not allowed are replaced by the first allowed one in
/// the database (or cleared), weapons that no longer fit are dropped, and
/// system turrets whose cyborg-ness does not match are removed.
pub fn retarget_for_family(buf: &mut TemplateStats, db: &StatsDatabase)
    ensures
        ({
            let family = spec_droid_family(opt_view(old(buf).droid_type));
            let prop = retarget_propulsion(*old(buf), *db, family);
            let medium = medium_of(*db, prop);
            &&& final(buf).body@ == retarget_body(*old(buf), *db, family)
            &&& final(buf).propulsion@ == prop
            &&& final(buf).weapons@ == old(buf).weapons@.filter(
                |w: String| weapon_kept(*db, family, medium, w),
            )
            &&& final(buf).sensor == retarget_turret(old(buf).sensor, db.sensor@, family)
            &&& final(buf).ecm == retarget_turret(old(buf).ecm, db.ecm@, family)
            &&& final(buf).repair == retarget_turret(old(buf).repair, db.repair@, family)
            &&& final(buf).construct == retarget_turret(old(buf).construct, db.construct@, family)
        }),
        final(buf).id == old(buf).id,
        final(buf).name == old(buf).name,
        final(buf).droid_type == old(buf).droid_type,
        final(buf).brain == old(buf).brain,
{
    let family = droid_family(opt_as_str(&buf.droid_type));
    let need_new_body = match find_key(&db.bodies, buf.body.as_str()) {
        Some(i) => !body_selectable(&db.bodies[i], family),
        None => true,
    };
    if need_new_body {
        match find_selectable_body(&db.bodies, family) {
            Some(i) => {
                buf.body = db.bodies[i].id.clone();
            },
            None => {
                buf.body = String::new();
            },
        }
    }
    let need_new_prop = match find_key(&db.propulsion, buf.propulsion.as_str()) {
        Some(i) => !propulsion_allowed(&db.propulsion[i], family),
        None => true,
    };
    if need_new_prop {
        match find_allowed_propulsion(&db.propulsion, family) {
            Some(i) => {
                buf.propulsion = db.propulsion[i].id.clone();
            },
            None => {
                buf.propulsion = String::new();
            },
        }
    }
    let medium = match find_key(&db.propulsion, buf.propulsion.as_str()) {
        Some(i) => propulsion_medium(&db.propulsion[i]),
        None => PropulsionMedium::Unknown,
    };
    let ghost pred = |w: String| weapon_kept(*db, family, medium, w);
    let mut kept: Vec<String> = Vec::new();
    let mut i: usize = 0;
    while i < buf.weapons.len()
        invariant
            i <= buf.weapons@.len(),
            buf.weapons@ == old(buf).weapons@,
            kept@ == buf.weapons@.take(i as int).filter(pred),
            pred == (|w: String| weapon_kept(*db, family, medium, w)),
        decreases buf.weapons@.len() - i,
    {
        let w = &buf.weapons[i];
        let keep = if w.as_str().is_empty() {
            true
        } else {
            match find_key(&db.weapons, w.as_str()) {
                Some(k) => weapon_allowed(&db.weapons[k], family) && weapon_fits_propulsion(
                    &db.weapons[k],
                    medium,
                ),
                None => false,
            }
        };
        proof {
            assert(buf.weapons@.take(i as int + 1) =~= buf.weapons@.take(i as int).push(buf.weapons@[i as int]));
            buf.weapons@.take(i as int).lemma_filter_push(buf.weapons@[i as int], pred);
        }
        if keep {
            kept.push(w.clone());
        }
        i = i + 1;
    }
    proof {
        assert(buf.weapons@.take(buf.weapons@.len() as int) =~= buf.weapons@);
    }
    buf.weapons = kept;
    retarget_turret_slot(&mut buf.sensor, &db.sensor, family);
    retarget_turret_slot(&mut buf.ecm, &db.ecm, family);
    retarget_turret_slot(&mut buf.repair, &db.repair, family);
    retarget_turret_slot(&mut buf.construct, &db.construct, family);
}

/// Keep the template's droid type in step with its parts: set it to the
/// derived type, and when that moves the template into another family
/// (say a cyborg body was picked), retarget the parts to the new family.
/// Returns whether the parts were retargeted.
pub fn sync_droid_type(buf: &mut TemplateStats, db: &StatsDatabase) -> (retargeted: bool)
    ensures
        ({
            let derived = spec_derive_droid_type(*old(buf), *db);
            let family = spec_droid_family(Some(derived));
            &&& retargeted == (spec_droid_family(opt_view(old(buf).droid_type)) != family)
            &&& opt_view(final(buf).droid_type) == Some(derived)
            &&& final(buf).id == old(buf).id
            &&& final(buf).name == old(buf).name
            &&& final(buf).brain == old(buf).brain
            &&& !retargeted ==> {
                &&& final(buf).body == old(buf).body
                &&& final(buf).propulsion == old(buf).propulsion
                &&& final(buf).weapons == old(buf).weapons
                &&& final(buf).sensor == old(buf).sensor
                &&& final(buf).ecm == old(buf).ecm
                &&& final(buf).repair == old(buf).repair
                &&& final(buf).construct == old(buf).construct
            }
            &&& retargeted ==> {
                let prop = retarget_propulsion(*old(buf), *db, family);
                let medium = medium_of(*db, prop);
                &&& final(buf).body@ == retarget_body(*old(buf), *db, family)
                &&& final(buf).propulsion@ == prop
                &&& final(buf).weapons@ == old(buf).weapons@.filter(
                    |w: String| weapon_kept(*db, family, medium, w),
                )
                &&& final(buf).sensor == retarget_turret(old(buf).sensor, db.sensor@, family)
                &&& final(buf).ecm == retarget_turret(old(buf).ecm, db.ecm@, family)
                &&& final(buf).repair == retarget_turret(old(buf).repair, db.repair@, family)
                &&& final(buf).construct == retarget_turret(old(buf).construct, db.construct@, family)
            }
        }),
{
    let derived = derive_droid_type(buf, db);
    let prev = droid_family(opt_as_str(&buf.droid_type));
    let next = droid_family(Some(derived));
    buf.droid_type = Some(owned(derived));
    if prev != next {
        retarget_for_family(buf, db);
        true
    } else {
        false
    }
}

/// Rough power cost of a template: the body's build power, half the
/// propulsion's weight, and a flat 10 per fitted weapon.
pub open spec fn spec_power_cost(t: TemplateStats, db: StatsDatabase) -> int {
    let body = match spec_get(db.bodies@, t.body@) {
        Some(b) => match b.build_power {
            Some(p) => p as int,
            None => 0,
        },
        None => 0,
    };
    let prop = match spec_get(db.propulsion@, t.propulsion@) {
        Some(p) => match p.weight {
            Some(w) => (w / 2) as int,
            None => 0,
        },
        None => 0,
    };
    body + prop + 10 * t.weapons@.filter(|w: String| w@.len() > 0).len()
}

/// Estimated power cost shown in the designer's top bar.
pub fn estimate_power_cost(t: &TemplateStats, db: &StatsDatabase) -> (r: u32)
    requires
        spec_power_cost(*t, *db) <= u32::MAX,
    ensures
        r == spec_power_cost(*t, *db),
{
    let body: u64 = match find_key(&db.bodies, t.body.as_str()) {
        Some(i) => match db.bodies[i].build_power {
            Some(p) => p as u64,
            None => 0,
        },
        None => 0,
    };
    let prop: u64 = match find_key(&db.propulsion, t.propulsion.as_str()) {
        Some(i) => match db.propulsion[i].weight {
            Some(w) => (w / 2) as u64,
            None => 0,
        },
        None => 0,
    };
    let ghost pred = |w: String| w@.len() > 0;
    let mut count: u64 = 0;
    let mut i: usize = 0;
    while i < t.weapons.len()
        invariant
            i <= t.weapons@.len(),
            count == t.weapons@.take(i as int).filter(pred).len(),
            count <= i,
            pred == (|w: String| w@.len() > 0),
        decreases t.weapons@.len() - i,
    {
        proof {
            assert(t.weapons@.take(i as int + 1) =~= t.weapons@.take(i as int).push(t.weapons@[i as int]));
            t.weapons@.take(i as int).lemma_filter_push(t.weapons@[i as int], pred);
        }
        if !t.weapons[i].as_str().is_empty() {
            count = count + 1;
        }
        i = i + 1;
    }
    proof {
        assert(t.weapons@.take(t.weapons@.len() as int) =~= t.weapons@);
    }
    (body + prop + 10 * count) as u32
}

/// First position at or after `i` of a weapon allowed for `family`.
pub open spec fn first_allowed_weapon(s: Seq<WeaponStats>, family: DroidFamily, i: int) -> Option<int>
    decreases s.len() - i,
{
    if i < 0 || i >= s.len() {
        None
    } else if spec_weapon_allowed(s[i], family) {
        Some(i)
    } else {
        first_allowed_weapon(s, family, i + 1)
    }
}

fn find_allowed_weapon(weapons: &Vec<WeaponStats>, family: DroidFamily) -> (r: Option<usize>)
    ensures
        match r {
            Some(i) => first_allowed_weapon(weapons@, family, 0) == Some(i as int) && i < weapons@.len(),
            None => first_allowed_weapon(weapons@, family, 0) is None,
        },
{
    let mut i: usize = 0;
    while i < weapons.len()
        invariant
            i <= weapons@.len(),
            first_allowed_weapon(weapons@, family, 0) == first_allowed_weapon(weapons@, family, i as int),
        decreases weapons@.len() - i,
    {
        if weapon_allowed(&weapons[i], family) {
            return Some(i);
        }
        i = i + 1;
    }
    None
}

/// The designer window's editing state: whether it is open, the template
/// being edited, the slot tab shown, where a save goes and the findings of
/// the last validation.
#[derive(Debug)]
pub struct Designer {
    pub open: bool,
    /// The template being edited.
    pub buffer: TemplateStats,
    pub active_slot: SlotTab,
    /// Id of the template edited in place; `None` makes Save allocate one.
    pub editing_id: Option<String>,
    /// Set when opened from a placed droid: Save re-points that droid.
    pub retarget_droid_index: Option<usize>,
    /// Findings of the most recent validation.
    pub issues: Vec<Issue>,
    pub name_buf: String,
    /// The most recent Save error, shown inline.
    pub last_save_error: Option<String>,
}

/// A fresh session: not editing any template, no save error, body tab shown.
pub open spec fn session_reset(d: Designer) -> bool {
    &&& d.open
    &&& d.active_slot == SlotTab::Body
    &&& d.editing_id is None
    &&& d.retarget_droid_index is None
    &&& d.last_save_error is None
}

impl Default for Designer {
    /// A closed designer with a blank template.
    fn default() -> (r: Self)
        ensures
            !r.open,
            r.buffer.id@.len() == 0 && r.buffer.body@.len() == 0 && r.buffer.propulsion@.len() == 0,
            r.buffer.weapons@.len() == 0,
            opt_view(r.buffer.droid_type) == Some("WEAPON"@),
            r.active_slot == SlotTab::Body,
            r.editing_id is None,
            r.retarget_droid_index is None,
            r.issues@.len() == 0,
            r.name_buf@.len() == 0,
            r.last_save_error is None,
    {
        Designer {
            open: false,
            buffer: empty_template(),
            active_slot: SlotTab::Body,
            editing_id: None,
            retarget_droid_index: None,
            issues: Vec::new(),
            name_buf: String::new(),
            last_save_error: None,
        }
    }
}

impl Designer {
    /// Open the designer on a new droid: a blank weapon template with the
    /// first selectable standard body, the first allowed standard propulsion
    /// and the first allowed standard weapon of the database, named
    /// `New Droid`.
    pub fn open_fresh(&mut self, db: &StatsDatabase)
        ensures
            session_reset(*final(self)),
            final(self).name_buf@ == "New Droid"@,
            opt_view(final(self).buffer.name) == Some("New Droid"@),
            final(self).buffer.id@.len() == 0,
            opt_view(final(self).buffer.droid_type) == Some("WEAPON"@),
            final(self).buffer.body@ == match first_selectable_body(db.bodies@, DroidFamily::Standard, 0) {
                Some(i) => db.bodies@[i].id@,
                None => Seq::empty(),
            },
            final(self).buffer.propulsion@ == match first_allowed_propulsion(db.propulsion@, DroidFamily::Standard, 0) {
                Some(i) => db.propulsion@[i].id@,
                None => Seq::empty(),
            },
            final(self).buffer.weapons@.map_values(|w: String| w@) == match first_allowed_weapon(
                db.weapons@,
                DroidFamily::Standard,
                0,
            ) {
                Some(i) => seq![db.weapons@[i].id@],
                None => Seq::<Seq<char>>::empty(),
            },
            final(self).buffer.construct is None && final(self).buffer.sensor is None && final(self).buffer.repair is None
                && final(self).buffer.ecm is None && final(self).buffer.brain is None,
            final(self).issues == old(self).issues,
    {
        self.buffer = empty_template();
        match find_selectable_body(&db.bodies, DroidFamily::Standard) {
            Some(i) => {
                self.buffer.body = db.bodies[i].id.clone();
            },
            None => {},
        }
        match find_allowed_propulsion(&db.propulsion, DroidFamily::Standard) {
            Some(i) => {
                self.buffer.propulsion = db.propulsion[i].id.clone();
            },
            None => {},
        }
        match find_allowed_weapon(&db.weapons, DroidFamily::Standard) {
            Some(i) => {
                self.buffer.weapons = vec![db.weapons[i].id.clone()];
                assert(self.buffer.weapons@.map_values(|w: String| w@) =~= seq![db.weapons@[i as int].id@]);
            },
            None => {
                assert(self.buffer.weapons@.map_values(|w: String| w@) =~= Seq::<Seq<char>>::empty());
            },
        }
        self.name_buf = owned("New Droid");
        self.buffer.name = Some(self.name_buf.clone());
        self.active_slot = SlotTab::Body;
        self.editing_id = None;
        self.retarget_droid_index = None;
        self.last_save_error = None;
        self.open = true;
    }

    /// Open the designer on a copy of an existing template. The copy gets no
    /// id, so saving creates a new template and the source is untouched;
    /// the name is the source's name, or its id when it has none.
    pub fn open_with_template(&mut self, src: &TemplateStats)
        ensures
            session_reset(*final(self)),
            final(self).name_buf@ == match src.name {
                Some(n) => n@,
                None => src.id@,
            },
            opt_view(final(self).buffer.name) == Some(final(self).name_buf@),
            final(self).buffer.id@.len() == 0,
            final(self).buffer.body == src.body,
            final(self).buffer.propulsion == src.propulsion,
            final(self).buffer.weapons@ == src.weapons@,
            final(self).buffer.droid_type == src.droid_type,
            final(self).buffer.construct == src.construct,
            final(self).buffer.sensor == src.sensor,
            final(self).buffer.repair == src.repair,
            final(self).buffer.ecm == src.ecm,
            final(self).buffer.brain == src.brain,
            final(self).issues == old(self).issues,
    {
        self.buffer = src.clone();
        self.buffer.id = String::new();
        self.name_buf = match &src.name {
            Some(n) => n.clone(),
            None => src.id.clone(),
        };
        self.buffer.name = Some(self.name_buf.clone());
        self.active_slot = SlotTab::Body;
        self.editing_id = None;
        self.retarget_droid_index = None;
        self.last_save_error = None;
        self.open = true;
    }

    /// Settle a frame of the designer window that may have saved a
    /// template (`saved` holds its id). After a save, the placed droid the
    /// designer was opened from, if any and if the open map (`map`, `None`
    /// without one) still has it, is pointed at the saved template; the
    /// designer forgets that droid either way. Returns whether the map
    /// changed.
    pub fn apply_saved_template(&mut self, map: Option<&mut WzMap>, saved: Option<String>) -> (r: bool)
        ensures
            match saved {
                None => {
                    &&& !r
                    &&& *final(self) == *old(self)
                    &&& (map matches Some(m) ==> *final(m) == *m)
                },
                Some(id) => {
                    &&& *final(self) == (Designer { retarget_droid_index: None, ..*old(self) })
                    &&& r == (old(self).retarget_droid_index matches Some(idx) && map matches Some(m) && idx
                        < m.droids@.len())
                    &&& (map matches Some(m) ==> if r {
                        let idx = old(self).retarget_droid_index->0 as int;
                        &&& final(m).droids@ == m.droids@.update(idx, Droid { name: id, ..m.droids@[idx] })
                        &&& final(m).map_data == m.map_data
                        &&& final(m).structures == m.structures
                        &&& final(m).features == m.features
                        &&& final(m).labels == m.labels
                    } else {
                        *final(m) == *m
                    })
                },
            },
    {
        match saved {
            None => false,
            Some(id) => {
                let mut changed = false;
                match (self.retarget_droid_index, map) {
                    (Some(idx), Some(m)) => {
                        if idx < m.droids.len() {
                            m.droids[idx].name = id;
                            changed = true;
                        }
                    },
                    _ => {},
                }
                self.retarget_droid_index = None;
                changed
            },
        }
    }
}


/// Id a save files the template under: the store's fresh id when a new
/// template is asked for or no stored template is being edited, else the
/// edited template's id.
pub open spec fn save_id(d: Designer, force_new: bool, fresh_id: String) -> String {
    if force_new || d.editing_id is None {
        fresh_id
    } else {
        d.editing_id->0
    }
}

/// `t` is the designer's template as a save writes it: the buffer under
/// `id`, named by the name box.
pub open spec fn is_saved_template(t: TemplateStats, d: Designer, id: String) -> bool {
    &&& t.id == id
    &&& t.name == Some(d.name_buf)
    &&& t.body == d.buffer.body
    &&& t.propulsion == d.buffer.propulsion
    &&& t.weapons@ == d.buffer.weapons@
    &&& t.droid_type == d.buffer.droid_type
    &&& t.construct == d.buffer.construct
    &&& t.sensor == d.buffer.sensor
    &&& t.repair == d.buffer.repair
    &&& t.ecm == d.buffer.ecm
    &&& t.brain == d.buffer.brain
}

/// The decision of Save: the template to store (the buffer under the save
/// id, validated under that id), or the refusal shown when validation finds
/// an error. `fresh_id` is the template store's next free id; the caller
/// stores an accepted template.
pub fn commit_save_decision(designer: &Designer, db: &StatsDatabase, force_new: bool, fresh_id: String) -> (r: Result<
    TemplateStats,
    String,
>)
    ensures
        match r {
            Ok(t) => is_saved_template(t, *designer, save_id(*designer, force_new, fresh_id)) && spec_save_ready(
                spec_validate(t, *db),
            ),
            Err(e) => e@ == "Template has errors. Fix them before saving"@ && exists|t: TemplateStats|
                is_saved_template(t, *designer, save_id(*designer, force_new, fresh_id)) && !spec_save_ready(
                    #[trigger] spec_validate(t, *db),
                ),
        },
{
    let id = if force_new {
        fresh_id
    } else {
        match &designer.editing_id {
            Some(e) => e.clone(),
            None => fresh_id,
        }
    };
    let mut final_tpl = designer.buffer.clone();
    final_tpl.id = id;
    final_tpl.name = Some(designer.name_buf.clone());
    let issues = validate(&final_tpl, db);
    if !is_save_ready(issues.as_slice()) {
        proof {
            reveal_strlit("Template has errors. Fix them before saving");
        }
        return Err(owned("Template has errors. Fix them before saving"));
    }
    Ok(final_tpl)
}

/// A weapon suits VTOL (`LIFT`) propulsion exactly when it is a VTOL
/// weapon, one with a positive number of attack runs, and ground
/// propulsion exactly when it is not.
pub proof fn lemma_vtol_weapons_only_on_lift(w: WeaponStats)
    ensures
        spec_weapon_fits_propulsion(w, PropulsionMedium::Air) <==> (w.num_attack_runs matches Some(n) && n > 0),
        spec_weapon_fits_propulsion(w, PropulsionMedium::Ground) <==> !(w.num_attack_runs matches Some(n) && n > 0),
        spec_weapon_fits_propulsion(w, PropulsionMedium::Unknown),
{
}

proof fn lemma_weapon_rules_include(
    t: TemplateStats,
    db: StatsDatabase,
    family: DroidFamily,
    medium: PropulsionMedium,
    n: int,
    i: int,
    x: IssueView,
)
    requires
        0 <= i < n,
        weapon_rule(t, db, family, medium, i).contains(x),
    ensures
        weapon_rules(t, db, family, medium, n).contains(x),
    decreases n,
{
    let prev = weapon_rules(t, db, family, medium, n - 1);
    let last = weapon_rule(t, db, family, medium, n - 1);
    if i < n - 1 {
        lemma_weapon_rules_include(t, db, family, medium, n - 1, i, x);
        let k = choose|k: int| 0 <= k < prev.len() && prev[k] == x;
        assert((prev + last)[k] == x);
    } else {
        let k = choose|k: int| 0 <= k < last.len() && last[k] == x;
        assert((prev + last)[prev.len() + k] == x);
    }
}

/// A ground weapon (no attack runs, or none) fitted to a template whose
/// propulsion is `LIFT` is refused: validation reports the error on that
/// weapon's slot, so the template cannot be saved.
pub proof fn lemma_ground_weapon_on_lift_is_refused(t: TemplateStats, db: StatsDatabase, i: int)
    requires
        spec_get(db.bodies@, t.body@) is Some,
        spec_get(db.propulsion@, t.propulsion@) matches Some(p) && (p.propulsion_type matches Some(ty) && upper_seq(
            ty@,
        ) == "LIFT"@),
        0 <= i < t.weapons@.len(),
        i < 256,
        t.weapons@[i]@.len() > 0,
        spec_get(db.weapons@, t.weapons@[i]@) matches Some(w) && (w.num_attack_runs is None
            || w.num_attack_runs == Some(0u32)),
    ensures
        spec_validate(t, db).contains(
            IssueView {
                severity: Severity::Error,
                slot: Slot::Weapon(i as u8),
                message: "Ground weapon cannot be used on VTOL propulsion"@,
            },
        ),
        !spec_save_ready(spec_validate(t, db)),
{
    let b = spec_get(db.bodies@, t.body@)->0;
    let p = spec_get(db.propulsion@, t.propulsion@)->0;
    let family = spec_droid_family(opt_view(t.droid_type));
    let medium = spec_propulsion_medium(p);
    assert(medium == PropulsionMedium::Air);
    let x = IssueView {
        severity: Severity::Error,
        slot: Slot::Weapon(i as u8),
        message: "Ground weapon cannot be used on VTOL propulsion"@,
    };
    let wr = weapon_rule(t, db, family, medium, i);
    let head = when(
        !spec_weapon_allowed(spec_get(db.weapons@, t.weapons@[i]@)->0, family),
        error_view(
            Slot::Weapon(i as u8),
            "Weapon '"@ + t.weapons@[i]@ + "' is not selectable for droid type '"@ + type_text(t) + "'"@,
        ),
    );
    assert(wr == head + seq![x]);
    assert(wr[head.len() as int] == x);
    lemma_weapon_rules_include(t, db, family, medium, t.weapons@.len() as int, i, x);
    let a = compat_rule(b, p) + body_rule(t, b, family) + buildable_rule(t, b) + propulsion_rule(t, p, family);
    let ws = weapon_rules(t, db, family, medium, t.weapons@.len() as int);
    let rest = slot_rule(t, b) + unknown_weapon_rules(t, db, t.weapons@.len() as int) + turret_rules(t, db)
        + required_rule(t) + loadout_rules(t, medium);
    let v = spec_validate(t, db);
    assert(v =~= a + ws + rest);
    let k = choose|k: int| 0 <= k < ws.len() && ws[k] == x;
    assert(v[a.len() + k] == x);
}

/// With a body that is neither cyborg, super-cyborg nor transporter, the
/// droid type follows the system turret: a command brain, else a
/// constructor, a repair turret, a sensor, an ECM, in that order; only a
/// template with none of them is a weapon droid.
pub proof fn lemma_turret_decides_droid_type(t: TemplateStats, db: StatsDatabase)
    requires
        !(spec_get(db.bodies@, t.body@) matches Some(b) && (b.cyborg || b.super_cyborg || b.transporter)),
    ensures
        t.brain is Some ==> spec_derive_droid_type(t, db) == "DROID_COMMAND"@,
        t.brain is None && t.construct is Some ==> spec_derive_droid_type(t, db) == "CONSTRUCT"@,
        t.brain is None && t.construct is None && t.repair is Some ==> spec_derive_droid_type(t, db) == "REPAIR"@,
        t.brain is None && t.construct is None && t.repair is None && t.sensor is Some ==> spec_derive_droid_type(
            t,
            db,
        ) == "SENSOR"@,
        t.brain is None && t.construct is None && t.repair is None && t.sensor is None && t.ecm is Some
            ==> spec_derive_droid_type(t, db) == "ECM"@,
        spec_derive_droid_type(t, db) == "WEAPON"@ <==> (t.brain is None && t.construct is None && t.repair is None
            && t.sensor is None && t.ecm is None),
{
    reveal_strlit("WEAPON");
    reveal_strlit("DROID_COMMAND");
    reveal_strlit("CONSTRUCT");
    reveal_strlit("REPAIR");
    reveal_strlit("SENSOR");
    reveal_strlit("ECM");
    assert("WEAPON"@.len() != "DROID_COMMAND"@.len());
    assert("WEAPON"@.len() != "CONSTRUCT"@.len());
    assert("WEAPON"@.len() != "ECM"@.len());
    assert("WEAPON"@[0] != "REPAIR"@[0]);
    assert("WEAPON"@[0] != "SENSOR"@[0]);
}

/// The body decides first: a transporter body makes a transporter, a
/// super-cyborg body a super cyborg, and a cyborg body a cyborg, a
/// constructor cyborg with a constructor, or a mechanic with a repair
/// turret; the turrets decide only for other bodies.
pub proof fn lemma_body_decides_droid_type(t: TemplateStats, db: StatsDatabase)
    requires
        spec_get(db.bodies@, t.body@) is Some,
    ensures
        ({
            let b = spec_get(db.bodies@, t.body@)->0;
            &&& b.transporter ==> spec_derive_droid_type(t, db) == "TRANSPORTER"@
            &&& !b.transporter && b.super_cyborg ==> spec_derive_droid_type(t, db) == "CYBORG_SUPER"@
            &&& !b.transporter && !b.super_cyborg && b.cyborg ==> spec_derive_droid_type(t, db) == (if t.construct is Some {
                "CYBORG_CONSTRUCT"@
            } else if t.repair is Some {
                "CYBORG_REPAIR"@
            } else {
                "CYBORG"@
            })
        }),
{
}

} // verus!
