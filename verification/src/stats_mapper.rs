//! Stat-name to PIE-model resolution: the object-name to model table the
//! model loader starts from, and the component models of droid templates
//! and structure turrets.
use vstd::prelude::*;

use crate::designer::opt_view;
use crate::stats::{
    find_key, keys_unique, lemma_get_upsert, lemma_upsert_keeps_unique, spec_get, upsert, Keyed,
    StatsDatabase, TemplateStats, TurretStats,
};
use crate::text::{str_eq};

verus! {

/// One row of the object-name to model table.
#[derive(Debug)]
pub struct ImdEntry {
    pub name: String,
    pub imd: String,
}

impl Keyed for ImdEntry {
    open spec fn key_view(&self) -> Seq<char> {
        self.name@
    }

    fn key(&self) -> (r: &str) {
        self.name.as_str()
    }
}

/// The model a table maps `name` to.
pub open spec fn imd_get(map: Seq<ImdEntry>, name: Seq<char>) -> Option<Seq<char>> {
    match spec_get(map, name) {
        Some(e) => Some(e.imd@),
        None => None,
    }
}

/// The model of the structure with id `name`.
pub open spec fn structure_imd(db: StatsDatabase, name: Seq<char>) -> Option<Seq<char>> {
    match spec_get(db.structures@, name) {
        Some(s) => opt_view(s.model),
        None => None,
    }
}

/// The model of the feature with id `name`.
pub open spec fn feature_imd(db: StatsDatabase, name: Seq<char>) -> Option<Seq<char>> {
    match spec_get(db.features@, name) {
        Some(f) => opt_view(f.model),
        None => None,
    }
}

/// The body model of the template with id `name`.
pub open spec fn template_imd(db: StatsDatabase, name: Seq<char>) -> Option<Seq<char>> {
    match spec_get(db.templates@, name) {
        Some(t) => match spec_get(db.bodies@, t.body@) {
            Some(b) => opt_view(b.model),
            None => None,
        },
        None => None,
    }
}

/// The model an object name maps to: a template's body model wins over a
/// feature's model, which wins over a structure's.
pub open spec fn spec_imd_for(db: StatsDatabase, name: Seq<char>) -> Option<Seq<char>> {
    if template_imd(db, name) is Some {
        template_imd(db, name)
    } else if feature_imd(db, name) is Some {
        feature_imd(db, name)
    } else {
        structure_imd(db, name)
    }
}

fn upsert_imd(map: &mut Vec<ImdEntry>, name: &String, imd: &String)
    requires
        keys_unique(old(map)@),
    ensures
        keys_unique(final(map)@),
        forall|k: Seq<char>| #[trigger] imd_get(final(map)@, k) == (if k == name@ {
            Some(imd@)
        } else {
            imd_get(old(map)@, k)
        }),
{
    let e = ImdEntry { name: name.clone(), imd: imd.clone() };
    let ghost m0 = map@;
    upsert(map, e);
    proof {
        lemma_upsert_keeps_unique(m0, e);
        assert forall|k: Seq<char>| #[trigger] imd_get(map@, k) == (if k == name@ {
            Some(imd@)
        } else {
            imd_get(m0, k)
        }) by {
            lemma_get_upsert(m0, e, k);
        }
    }
}

/// `take(i + 1)` finds entry `i` for its own id (ids are unique) and what
/// `take(i)` finds for every other id.
proof fn lemma_get_take_step<T: Keyed>(items: Seq<T>, i: int, k: Seq<char>)
    requires
        keys_unique(items),
        0 <= i < items.len(),
    ensures
        spec_get(items.take(i + 1), k) == (if items[i].key_view() == k {
            Some(items[i])
        } else {
            spec_get(items.take(i), k)
        }),
{
    assert(items.take(i + 1) =~= items.take(i).push(items[i]));
    crate::stats::lemma_get_push(items.take(i), items[i], k);
    if items[i].key_view() == k {
        crate::stats::lemma_lookup_some_iff_has_key(items.take(i), k);
        if crate::stats::has_key(items.take(i), k) {
            let j = choose|j: int| 0 <= j < items.take(i).len() && items.take(i)[j].key_view() == k;
            assert(items[j].key_view() == items[i].key_view());
        }
    }
}

/// Build the object-name to model table from the stats: structures, then
/// features, then templates (by their body's model), later kinds replacing
/// earlier ones under the same name.
pub fn build_imd_map(db: &StatsDatabase) -> (r: Vec<ImdEntry>)
    requires
        db.wf(),
    ensures
        keys_unique(r@),
        forall|k: Seq<char>| #[trigger] imd_get(r@, k) == spec_imd_for(*db, k),
{
    let mut map: Vec<ImdEntry> = Vec::new();
    let mut i: usize = 0;
    proof {
        assert forall|k: Seq<char>| #[trigger] imd_get(map@, k) == (match spec_get(db.structures@.take(0), k) {
            Some(s) => opt_view(s.model),
            None => None,
        }) by {
            crate::stats::lemma_lookup_some_iff_has_key(db.structures@.take(0), k);
            crate::stats::lemma_lookup_some_iff_has_key(map@, k);
        }
    }
    while i < db.structures.len()
        invariant
            db.wf(),
            i <= db.structures@.len(),
            keys_unique(map@),
            forall|k: Seq<char>| #[trigger] imd_get(map@, k) == (match spec_get(db.structures@.take(i as int), k) {
                Some(s) => opt_view(s.model),
                None => None,
            }),
        decreases db.structures@.len() - i,
    {
        let ghost m0 = map@;
        match &db.structures[i].model {
            Some(m) => upsert_imd(&mut map, &db.structures[i].id, m),
            None => {},
        }
        proof {
            assert forall|k: Seq<char>| #[trigger] imd_get(map@, k) == (match spec_get(db.structures@.take(i as int + 1), k) {
                Some(s) => opt_view(s.model),
                None => None,
            }) by {
                lemma_get_take_step(db.structures@, i as int, k);
                assert(imd_get(m0, k) == imd_get(m0, k));
            }
        }
        i = i + 1;
    }
    proof {
        assert(db.structures@.take(db.structures@.len() as int) =~= db.structures@);
        assert forall|k: Seq<char>| #[trigger] imd_get(map@, k) == (match spec_get(db.features@.take(0), k) {
            Some(f) => opt_view(f.model),
            None => structure_imd(*db, k),
        }) by {
            crate::stats::lemma_lookup_some_iff_has_key(db.features@.take(0), k);
        }
    }
    let mut i: usize = 0;
    while i < db.features.len()
        invariant
            db.wf(),
            i <= db.features@.len(),
            keys_unique(map@),
            forall|k: Seq<char>| #[trigger] imd_get(map@, k) == (match spec_get(db.features@.take(i as int), k) {
                Some(f) => if opt_view(f.model) is Some {
                    opt_view(f.model)
                } else {
                    structure_imd(*db, k)
                },
                None => structure_imd(*db, k),
            }),
        decreases db.features@.len() - i,
    {
        let ghost m0 = map@;
        match &db.features[i].model {
            Some(m) => upsert_imd(&mut map, &db.features[i].id, m),
            None => {},
        }
        proof {
            assert forall|k: Seq<char>| #[trigger] imd_get(map@, k) == (match spec_get(db.features@.take(i as int + 1), k) {
                Some(f) => if opt_view(f.model) is Some {
                    opt_view(f.model)
                } else {
                    structure_imd(*db, k)
                },
                None => structure_imd(*db, k),
            }) by {
                lemma_get_take_step(db.features@, i as int, k);
                assert(imd_get(m0, k) == imd_get(m0, k));
            }
        }
        i = i + 1;
    }
    proof {
        assert(db.features@.take(db.features@.len() as int) =~= db.features@);
        assert forall|k: Seq<char>| #[trigger] imd_get(map@, k) == (match spec_get(db.templates@.take(0), k) {
            Some(t) => spec_imd_for(*db, k),
            None => if feature_imd(*db, k) is Some {
                feature_imd(*db, k)
            } else {
                structure_imd(*db, k)
            },
        }) by {
            crate::stats::lemma_lookup_some_iff_has_key(db.templates@.take(0), k);
        }
    }
    let mut i: usize = 0;
    while i < db.templates.len()
        invariant
            db.wf(),
            i <= db.templates@.len(),
            keys_unique(map@),
            forall|k: Seq<char>| #[trigger] imd_get(map@, k) == (match spec_get(db.templates@.take(i as int), k) {
                Some(t) => spec_imd_for(*db, k),
                None => if feature_imd(*db, k) is Some {
                    feature_imd(*db, k)
                } else {
                    structure_imd(*db, k)
                },
            }),
        decreases db.templates@.len() - i,
    {
        let ghost m0 = map@;
        let t = &db.templates[i];
        proof {
            crate::stats::lemma_lookup_some_iff_has_key(db.templates@, t.id@);
            assert(crate::stats::is_first_key(db.templates@, t.id@, i as int));
            crate::stats::lemma_first_key_unique(db.templates@, t.id@, i as int);
        }
        match find_key(&db.bodies, t.body.as_str()) {
            Some(b) => match &db.bodies[b].model {
                Some(m) => upsert_imd(&mut map, &t.id, m),
                None => {},
            },
            None => {},
        }
        proof {
            assert forall|k: Seq<char>| #[trigger] imd_get(map@, k) == (match spec_get(db.templates@.take(i as int + 1), k) {
                Some(t) => spec_imd_for(*db, k),
                None => if feature_imd(*db, k) is Some {
                    feature_imd(*db, k)
                } else {
                    structure_imd(*db, k)
                },
            }) by {
                lemma_get_take_step(db.templates@, i as int, k);
                assert(imd_get(m0, k) == imd_get(m0, k));
            }
        }
        i = i + 1;
    }
    proof {
        assert(db.templates@.take(db.templates@.len() as int) =~= db.templates@);
    }
    map
}


/// A turret model and the mount drawn under it.
pub type Part = (Seq<char>, Option<Seq<char>>);

/// The turret and mount of weapon `w`, when it is known and has a model.
pub open spec fn weapon_part(db: StatsDatabase, w: Seq<char>) -> Option<Part> {
    match spec_get(db.weapons@, w) {
        Some(ws) => match ws.model {
            Some(m) => Some((m@, opt_view(ws.mount_model))),
            None => None,
        },
        None => None,
    }
}

/// The parts of a list of weapons, skipping unknown and model-less ones.
pub open spec fn weapon_parts(db: StatsDatabase, ws: Seq<String>) -> Seq<Part>
    decreases ws.len(),
{
    if ws.len() == 0 {
        Seq::empty()
    } else {
        let rest = weapon_parts(db, ws.drop_last());
        match weapon_part(db, ws.last()@) {
            Some(p) => rest.push(p),
            None => rest,
        }
    }
}

/// The part of a system turret slot: nothing when the slot is empty, the
/// turret is unknown or it has no model.
pub open spec fn turret_part(table: Seq<TurretStats>, name: Option<String>) -> Seq<Part> {
    match name {
        Some(n) => match spec_get(table, n@) {
            Some(ts) => match ts.model {
                Some(m) => seq![(m@, opt_view(ts.mount_model))],
                None => Seq::empty(),
            },
            None => Seq::empty(),
        },
        None => Seq::empty(),
    }
}

/// A command droid's brain carries a weapon turret; it is drawn unless the
/// template also lists that weapon itself.
pub open spec fn brain_part(db: StatsDatabase, t: TemplateStats) -> Seq<Part> {
    match t.brain {
        Some(b) => match spec_get(db.brain@, b@) {
            Some(bs) => match bs.turret {
                Some(tw) => if (exists|i: int| 0 <= i < t.weapons@.len() && #[trigger] t.weapons@[i]@ == tw@) {
                    Seq::empty()
                } else {
                    match weapon_part(db, tw@) {
                        Some(p) => seq![p],
                        None => Seq::empty(),
                    }
                },
                None => Seq::empty(),
            },
            None => Seq::empty(),
        },
        None => Seq::empty(),
    }
}

/// Every turret drawn on a template, in drawing order: its weapons, then
/// constructor, sensor and repair turrets, then the brain's weapon.
pub open spec fn droid_parts(db: StatsDatabase, t: TemplateStats) -> Seq<Part> {
    weapon_parts(db, t.weapons@) + turret_part(db.construct@, t.construct) + turret_part(db.sensor@, t.sensor)
        + turret_part(db.repair@, t.repair) + brain_part(db, t)
}

/// The body model of a template.
pub open spec fn body_imd(db: StatsDatabase, t: TemplateStats) -> Option<Seq<char>> {
    match spec_get(db.bodies@, t.body@) {
        Some(b) => opt_view(b.model),
        None => None,
    }
}

/// The propulsion model of a template: the body's own model for that
/// propulsion when it has one, else the propulsion's model.
pub open spec fn propulsion_imd(db: StatsDatabase, t: TemplateStats) -> Option<Seq<char>> {
    let body_specific = match spec_get(db.bodies@, t.body@) {
        Some(b) => match spec_get(b.propulsion_models@, t.propulsion@) {
            Some(pm) => Some(pm.model@),
            None => None,
        },
        None => None,
    };
    if body_specific is Some {
        body_specific
    } else {
        match spec_get(db.propulsion@, t.propulsion@) {
            Some(p) => opt_view(p.model),
            None => None,
        }
    }
}

/// Turret models and their mounts, listed side by side.
pub open spec fn parts_match(weapons: Seq<String>, mounts: Seq<Option<String>>, parts: Seq<Part>) -> bool {
    &&& weapons.len() == parts.len()
    &&& mounts.len() == parts.len()
    &&& forall|i: int| 0 <= i < parts.len() ==> (#[trigger] weapons[i])@ == parts[i].0 && opt_view(mounts[i]) == parts[i].1
}

/// Resolved component models of a droid template.
#[derive(Debug)]
pub struct DroidComponents {
    pub body: Option<String>,
    pub propulsion: Option<String>,
    pub weapons: Vec<String>,
    /// Turret mount models corresponding one to one to `weapons`.
    pub mounts: Vec<Option<String>>,
}

/// Resolved weapon and sensor turret models of a structure.
#[derive(Debug)]
pub struct StructureWeapons {
    pub weapons: Vec<String>,
    /// Turret mount models corresponding one to one to `weapons`.
    pub mounts: Vec<Option<String>>,
}

fn clone_opt(o: &Option<String>) -> (r: Option<String>)
    ensures
        opt_view(r) == opt_view(*o),
{
    match o {
        Some(s) => Some(s.clone()),
        None => None,
    }
}

fn push_part(weapons: &mut Vec<String>, mounts: &mut Vec<Option<String>>, model: &String, mount: &Option<String>, Ghost(parts): Ghost<Seq<Part>>)
    requires
        parts_match(old(weapons)@, old(mounts)@, parts),
    ensures
        parts_match(final(weapons)@, final(mounts)@, parts.push((model@, opt_view(*mount)))),
{
    weapons.push(model.clone());
    mounts.push(clone_opt(mount));
    proof {
        let np = parts.push((model@, opt_view(*mount)));
        assert forall|i: int| 0 <= i < np.len() implies (#[trigger] weapons@[i])@ == np[i].0 && opt_view(mounts@[i]) == np[i].1 by {
            if i < parts.len() {
                assert(weapons@[i] == old(weapons)@[i]);
            }
        }
    }
}

fn push_weapon_parts(db: &StatsDatabase, ws: &Vec<String>, weapons: &mut Vec<String>, mounts: &mut Vec<Option<String>>, Ghost(parts): Ghost<Seq<Part>>)
    requires
        parts_match(old(weapons)@, old(mounts)@, parts),
    ensures
        parts_match(final(weapons)@, final(mounts)@, parts + weapon_parts(*db, ws@)),
{
    let mut i: usize = 0;
    proof {
        assert(parts + weapon_parts(*db, ws@.take(0)) =~= parts);
    }
    while i < ws.len()
        invariant
            i <= ws@.len(),
            parts_match(weapons@, mounts@, parts + weapon_parts(*db, ws@.take(i as int))),
        decreases ws@.len() - i,
    {
        let ghost before = parts + weapon_parts(*db, ws@.take(i as int));
        proof {
            assert(ws@.take(i as int + 1).drop_last() =~= ws@.take(i as int));
        }
        match find_key(&db.weapons, ws[i].as_str()) {
            Some(k) => match &db.weapons[k].model {
                Some(m) => {
                    push_part(weapons, mounts, m, &db.weapons[k].mount_model, Ghost(before));
                    proof {
                        assert(before.push((m@, opt_view(db.weapons@[k as int].mount_model))) =~= parts + weapon_parts(*db, ws@.take(i as int + 1)));
                    }
                },
                None => {},
            },
            None => {},
        }
        i = i + 1;
    }
    proof {
        assert(ws@.take(ws@.len() as int) =~= ws@);
    }
}

/// Append the model and mount of a system turret, when the slot names a
/// known turret that has a model.
fn push_turret(name: Option<&String>, table: &Vec<TurretStats>, weapons: &mut Vec<String>, mounts: &mut Vec<Option<String>>, Ghost(parts): Ghost<Seq<Part>>)
    requires
        parts_match(old(weapons)@, old(mounts)@, parts),
    ensures
        parts_match(final(weapons)@, final(mounts)@, parts + turret_part(table@, match name {
            Some(n) => Some(*n),
            None => None,
        })),
{
    let turret_name = match name {
        Some(n) => n,
        None => {
            assert(parts + Seq::<Part>::empty() =~= parts);
            return;
        },
    };
    let k = match find_key(table, turret_name.as_str()) {
        Some(k) => k,
        None => {
            assert(parts + Seq::<Part>::empty() =~= parts);
            return;
        },
    };
    match &table[k].model {
        Some(m) => {
            push_part(weapons, mounts, m, &table[k].mount_model, Ghost(parts));
            proof {
                assert(parts.push((m@, opt_view(table@[k as int].mount_model))) =~= parts + seq![(m@, opt_view(table@[k as int].mount_model))]);
            }
        },
        None => {
            assert(parts + Seq::<Part>::empty() =~= parts);
        },
    }
}

fn contains_str(v: &Vec<String>, s: &String) -> (r: bool)
    ensures
        r == exists|i: int| 0 <= i < v@.len() && #[trigger] v@[i]@ == s@,
{
    let mut i: usize = 0;
    while i < v.len()
        invariant
            i <= v@.len(),
            forall|j: int| 0 <= j < i ==> (#[trigger] v@[j])@ != s@,
        decreases v@.len() - i,
    {
        if str_eq(v[i].as_str(), s.as_str()) {
            return true;
        }
        i = i + 1;
    }
    false
}

/// Resolve a droid template into its component models: body, propulsion
/// and every turret with its mount. `None` for an unknown template.
pub fn resolve_droid_components(droid_name: &str, db: &StatsDatabase) -> (r: Option<DroidComponents>)
    ensures
        match r {
            None => spec_get(db.templates@, droid_name@) is None,
            Some(c) => spec_get(db.templates@, droid_name@) matches Some(t) && {
                &&& opt_view(c.body) == body_imd(*db, t)
                &&& opt_view(c.propulsion) == propulsion_imd(*db, t)
                &&& parts_match(c.weapons@, c.mounts@, droid_parts(*db, t))
            },
        },
{
    let ti = match find_key(&db.templates, droid_name) {
        Some(i) => i,
        None => return None,
    };
    let t = &db.templates[ti];
    let bi = find_key(&db.bodies, t.body.as_str());
    let body: Option<String> = match bi {
        Some(b) => clone_opt(&db.bodies[b].model),
        None => None,
    };
    let body_specific: Option<String> = match bi {
        Some(b) => match find_key(&db.bodies[b].propulsion_models, t.propulsion.as_str()) {
            Some(p) => Some(db.bodies[b].propulsion_models[p].model.clone()),
            None => None,
        },
        None => None,
    };
    let propulsion: Option<String> = match body_specific {
        Some(m) => Some(m),
        None => match find_key(&db.propulsion, t.propulsion.as_str()) {
            Some(p) => clone_opt(&db.propulsion[p].model),
            None => None,
        },
    };
    let mut weapons: Vec<String> = Vec::new();
    let mut mounts: Vec<Option<String>> = Vec::new();
    push_weapon_parts(db, &t.weapons, &mut weapons, &mut mounts, Ghost(Seq::empty()));
    let ghost p1 = Seq::<Part>::empty() + weapon_parts(*db, t.weapons@);
    push_turret(t.construct.as_ref(), &db.construct, &mut weapons, &mut mounts, Ghost(p1));
    let ghost p2 = p1 + turret_part(db.construct@, t.construct);
    push_turret(t.sensor.as_ref(), &db.sensor, &mut weapons, &mut mounts, Ghost(p2));
    let ghost p3 = p2 + turret_part(db.sensor@, t.sensor);
    push_turret(t.repair.as_ref(), &db.repair, &mut weapons, &mut mounts, Ghost(p3));
    let ghost p4 = p3 + turret_part(db.repair@, t.repair);
    let mut added_brain = false;
    match &t.brain {
        Some(bn) => match find_key(&db.brain, bn.as_str()) {
            Some(bk) => match &db.brain[bk].turret {
                Some(tw) => {
                    if !contains_str(&t.weapons, tw) {
                        match find_key(&db.weapons, tw.as_str()) {
                            Some(wk) => match &db.weapons[wk].model {
                                Some(m) => {
                                    push_part(&mut weapons, &mut mounts, m, &db.weapons[wk].mount_model, Ghost(p4));
                                    added_brain = true;
                                },
                                None => {},
                            },
                            None => {},
                        }
                    }
                },
                None => {},
            },
            None => {},
        },
        None => {},
    }
    proof {
        assert(Seq::<Part>::empty() + weapon_parts(*db, t.weapons@) =~= weapon_parts(*db, t.weapons@));
        let bp = brain_part(*db, *t);
        if added_brain {
            assert(bp.len() == 1);
            assert(p4.push(bp[0]) =~= p4 + bp);
        } else {
            assert(bp =~= Seq::<Part>::empty());
            assert(p4 + bp =~= p4);
        }
        assert(p4 + bp =~= droid_parts(*db, *t));
    }
    Some(DroidComponents { body, propulsion, weapons, mounts })
}


/// Walls, corner walls and gates never show a turret, whatever sensor or
/// ECM their stats name.
pub open spec fn suppresses_turret(st: Option<Seq<char>>) -> bool {
    st == Some("WALL"@) || st == Some("CORNER WALL"@) || st == Some("GATE"@)
}

/// The turrets drawn on a structure: its weapons; failing those its ECM
/// turret, failing that its sensor turret (neither on walls and gates).
pub open spec fn structure_parts(db: StatsDatabase, s: crate::stats::StructureStats) -> Seq<Part> {
    let suppress = suppresses_turret(opt_view(s.structure_type));
    let w = weapon_parts(db, s.weapons@);
    let e = if w.len() == 0 && !suppress {
        turret_part(db.ecm@, s.ecm_id)
    } else {
        Seq::empty()
    };
    let we = w + e;
    let sn = if we.len() == 0 && !suppress {
        turret_part(db.sensor@, s.sensor_id)
    } else {
        Seq::empty()
    };
    we + sn
}

proof fn lemma_no_weapon_models(db: StatsDatabase, ws: Seq<String>)
    requires
        forall|k: int|
            0 <= k < ws.len() ==> (spec_get(db.weapons@, (#[trigger] ws[k])@) matches Some(x) ==> x.model is None),
    ensures
        weapon_parts(db, ws).len() == 0,
    decreases ws.len(),
{
    if ws.len() > 0 {
        lemma_no_weapon_models(db, ws.drop_last());
        assert(ws.last() == ws[ws.len() - 1]);
    }
}

/// Walls, corner walls and gates show no turret: when none of a
/// structure's weapons has a model, it resolves to no turret at all,
/// whatever ECM or sensor its stats name.
pub proof fn lemma_walls_and_gates_show_no_turret(db: StatsDatabase, s: crate::stats::StructureStats)
    requires
        s.structure_type matches Some(ty) && (ty@ == "WALL"@ || ty@ == "CORNER WALL"@ || ty@ == "GATE"@),
        forall|k: int|
            0 <= k < s.weapons@.len() ==> (spec_get(db.weapons@, (#[trigger] s.weapons@[k])@) matches Some(x)
                ==> x.model is None),
    ensures
        structure_parts(db, s).len() == 0,
{
    lemma_no_weapon_models(db, s.weapons@);
}

/// Any other structure without weapon models shows its ECM turret, or
/// failing that its sensor turret, with the turret's mount.
pub proof fn lemma_other_structures_fall_back_to_system_turrets(
    db: StatsDatabase,
    s: crate::stats::StructureStats,
)
    requires
        !(s.structure_type matches Some(ty) && (ty@ == "WALL"@ || ty@ == "CORNER WALL"@ || ty@ == "GATE"@)),
        forall|k: int|
            0 <= k < s.weapons@.len() ==> (spec_get(db.weapons@, (#[trigger] s.weapons@[k])@) matches Some(x)
                ==> x.model is None),
    ensures
        (s.ecm_id matches Some(e) && spec_get(db.ecm@, e@) matches Some(t) && t.model is Some) ==> structure_parts(
            db,
            s,
        ) == seq![
            (spec_get(db.ecm@, s.ecm_id->0@)->0.model->0@, opt_view(spec_get(db.ecm@, s.ecm_id->0@)->0.mount_model)),
        ],
        !(s.ecm_id matches Some(e) && spec_get(db.ecm@, e@) matches Some(t) && t.model is Some) && (s.sensor_id matches Some(
            n,
        ) && spec_get(db.sensor@, n@) matches Some(t) && t.model is Some) ==> structure_parts(db, s) == seq![
            (spec_get(db.sensor@, s.sensor_id->0@)->0.model->0@, opt_view(
                spec_get(db.sensor@, s.sensor_id->0@)->0.mount_model,
            )),
        ],
{
    lemma_no_weapon_models(db, s.weapons@);
    assert(weapon_parts(db, s.weapons@) =~= Seq::<Part>::empty());
    let e = turret_part(db.ecm@, s.ecm_id);
    assert(Seq::<Part>::empty() + e =~= e);
    let sn = turret_part(db.sensor@, s.sensor_id);
    assert(e + sn =~= (if e.len() == 0 { sn } else { e + sn }));
    assert(Seq::<Part>::empty() + sn =~= sn);
    assert(e + Seq::<Part>::empty() =~= e);
}

/// Resolve a structure into its turret models and mounts: `None` for an
/// unknown structure or one that shows no turret.
pub fn resolve_structure_weapons(structure_name: &str, db: &StatsDatabase) -> (r: Option<StructureWeapons>)
    ensures
        match spec_get(db.structures@, structure_name@) {
            None => r is None,
            Some(s) => if structure_parts(*db, s).len() == 0 {
                r is None
            } else {
                r matches Some(w) && parts_match(w.weapons@, w.mounts@, structure_parts(*db, s))
            },
        },
{
    let si = match find_key(&db.structures, structure_name) {
        Some(i) => i,
        None => return None,
    };
    let s = &db.structures[si];
    proof {
        reveal_strlit("WALL");
        reveal_strlit("CORNER WALL");
        reveal_strlit("GATE");
    }
    let suppress = match &s.structure_type {
        Some(t) => str_eq(t.as_str(), "WALL") || str_eq(t.as_str(), "CORNER WALL") || str_eq(t.as_str(), "GATE"),
        None => false,
    };
    let mut weapons: Vec<String> = Vec::new();
    let mut mounts: Vec<Option<String>> = Vec::new();
    push_weapon_parts(db, &s.weapons, &mut weapons, &mut mounts, Ghost(Seq::empty()));
    let ghost w = weapon_parts(*db, s.weapons@);
    proof {
        assert(Seq::<Part>::empty() + w =~= w);
    }
    let ghost we: Seq<Part>;
    if weapons.len() == 0 && !suppress {
        push_turret(s.ecm_id.as_ref(), &db.ecm, &mut weapons, &mut mounts, Ghost(w));
        proof {
            we = w + turret_part(db.ecm@, s.ecm_id);
        }
    } else {
        proof {
            we = w;
            assert(w + Seq::<Part>::empty() =~= w);
        }
    }
    if weapons.len() == 0 && !suppress {
        push_turret(s.sensor_id.as_ref(), &db.sensor, &mut weapons, &mut mounts, Ghost(we));
    } else {
        proof {
            assert(we + Seq::<Part>::empty() =~= we);
        }
    }
    if weapons.len() == 0 {
        return None;
    }
    Some(StructureWeapons { weapons, mounts })
}

} // verus!
