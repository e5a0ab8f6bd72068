//! The game-stats tables the editor consults: structures (walls and their
//! footprints), droid components and droid templates. Each table is keyed by
//! a stat id, at most one entry per id.
use vstd::prelude::*;

verus! {

/// A table entry identified by a string id.
pub trait Keyed {
    spec fn key_view(&self) -> Seq<char>;

    fn key(&self) -> (r: &str)
        ensures
            r@ == self.key_view(),
    ;
}

/// `i` is the first position of `items` whose id is `id`.
pub open spec fn is_first_key<T: Keyed>(items: Seq<T>, id: Seq<char>, i: int) -> bool {
    &&& 0 <= i < items.len()
    &&& items[i].key_view() == id
    &&& forall|j: int| 0 <= j < i ==> items[j].key_view() != id
}

/// Position of the entry with id `id`, if any.
pub open spec fn spec_lookup<T: Keyed>(items: Seq<T>, id: Seq<char>) -> Option<int> {
    if exists|i: int| is_first_key(items, id, i) {
        Some(choose|i: int| is_first_key(items, id, i))
    } else {
        None
    }
}

/// The entry with id `id`, if any.
pub open spec fn spec_get<T: Keyed>(items: Seq<T>, id: Seq<char>) -> Option<T> {
    match spec_lookup(items, id) {
        Some(i) => Some(items[i]),
        None => None,
    }
}

/// Whether some entry has id `id`.
pub open spec fn has_key<T: Keyed>(items: Seq<T>, id: Seq<char>) -> bool {
    exists|i: int| 0 <= i < items.len() && items[i].key_view() == id
}

/// No two entries share an id.
pub open spec fn keys_unique<T: Keyed>(items: Seq<T>) -> bool {
    forall|i: int, j: int|
        0 <= i < items.len() && 0 <= j < items.len() && i != j ==> items[i].key_view()
            != items[j].key_view()
}

/// The first position with a given id is unique.
pub proof fn lemma_first_key_unique<T: Keyed>(items: Seq<T>, id: Seq<char>, i: int)
    requires
        is_first_key(items, id, i),
    ensures
        spec_lookup(items, id) == Some(i),
{
    let k = choose|k: int| is_first_key(items, id, k);
    assert(is_first_key(items, id, k));
    if k < i {
        assert(items[k].key_view() != id);
    } else if k > i {
        assert(items[i].key_view() != id);
    }
}

proof fn lemma_first_key_exists<T: Keyed>(items: Seq<T>, id: Seq<char>, k: int)
    requires
        0 <= k < items.len(),
        items[k].key_view() == id,
    ensures
        exists|i: int| is_first_key(items, id, i),
    decreases k,
{
    if exists|j: int| 0 <= j < k && items[j].key_view() == id {
        let j = choose|j: int| 0 <= j < k && items[j].key_view() == id;
        lemma_first_key_exists(items, id, j);
    } else {
        assert(is_first_key(items, id, k));
    }
}

/// Lookup finds an entry exactly when some entry carries the id.
pub proof fn lemma_lookup_some_iff_has_key<T: Keyed>(items: Seq<T>, id: Seq<char>)
    ensures
        spec_lookup(items, id) is Some <==> has_key(items, id),
        spec_lookup(items, id) matches Some(i) ==> 0 <= i < items.len() && items[i].key_view()
            == id,
{
    if has_key(items, id) {
        let k = choose|k: int| 0 <= k < items.len() && items[k].key_view() == id;
        lemma_first_key_exists(items, id, k);
    }
    if spec_lookup(items, id) is Some {
        let i = choose|i: int| is_first_key(items, id, i);
        assert(is_first_key(items, id, i));
    }
}

/// Position of the entry with id `id`.
pub fn find_key<T: Keyed>(items: &Vec<T>, id: &str) -> (r: Option<usize>)
    ensures
        match r {
            Some(i) => spec_lookup(items@, id@) == Some(i as int),
            None => spec_lookup(items@, id@) is None,
        },
{
    let mut i: usize = 0;
    while i < items.len()
        invariant
            i <= items@.len(),
            forall|j: int| 0 <= j < i ==> items@[j].key_view() != id@,
        decreases items@.len() - i,
    {
        if crate::text::str_eq(items[i].key(), id) {
            proof {
                lemma_first_key_unique(items@, id@, i as int);
            }
            return Some(i);
        }
        i = i + 1;
    }
    proof {
        if exists|k: int| is_first_key(items@, id@, k) {
            let k = choose|k: int| is_first_key(items@, id@, k);
            assert(items@[k].key_view() == id@);
        }
    }
    None
}

/// Whether an entry with id `id` exists.
pub fn contains_key<T: Keyed>(items: &Vec<T>, id: &str) -> (r: bool)
    ensures
        r == has_key(items@, id@),
{
    proof {
        lemma_lookup_some_iff_has_key(items@, id@);
    }
    find_key(items, id).is_some()
}

/// `items` after inserting `item`: it replaces the entry with the same id,
/// or is appended when there is none.
pub open spec fn spec_upsert<T: Keyed>(items: Seq<T>, item: T) -> Seq<T> {
    match spec_lookup(items, item.key_view()) {
        Some(i) => items.update(i, item),
        None => items.push(item),
    }
}

/// Insert `item`, replacing the entry that has the same id.
pub fn upsert<T: Keyed>(items: &mut Vec<T>, item: T)
    ensures
        final(items)@ == spec_upsert(old(items)@, item),
{
    let found = find_key(items, item.key());
    match found {
        Some(i) => {
            items.set(i, item);
        },
        None => {
            items.push(item);
        },
    }
}

/// Inserting keeps ids unique.
pub proof fn lemma_upsert_keeps_unique<T: Keyed>(items: Seq<T>, item: T)
    requires
        keys_unique(items),
    ensures
        keys_unique(spec_upsert(items, item)),
        has_key(spec_upsert(items, item), item.key_view()),
{
    lemma_lookup_some_iff_has_key(items, item.key_view());
    let r = spec_upsert(items, item);
    match spec_lookup(items, item.key_view()) {
        Some(i) => {
            assert(r[i] == item);
        },
        None => {
            assert(r[items.len() as int] == item);
        },
    }
}

/// Looking an id up after appending finds the earlier entry if there is
/// one, else the appended one when it carries the id.
pub proof fn lemma_get_push<T: Keyed>(items: Seq<T>, item: T, id: Seq<char>)
    ensures
        spec_get(items.push(item), id) == (match spec_get(items, id) {
            Some(v) => Some(v),
            None => if item.key_view() == id {
                Some(item)
            } else {
                None
            },
        }),
{
    let p = items.push(item);
    lemma_lookup_some_iff_has_key(items, id);
    lemma_lookup_some_iff_has_key(p, id);
    match spec_lookup(items, id) {
        Some(i) => {
            let i = choose|i: int| is_first_key(items, id, i);
            assert(is_first_key(items, id, i));
            assert(is_first_key(p, id, i));
            lemma_first_key_unique(p, id, i);
        },
        None => {
            assert forall|j: int| 0 <= j < items.len() implies items[j].key_view() != id by {
                if items[j].key_view() == id {
                    assert(has_key(items, id));
                }
            }
            if item.key_view() == id {
                assert(is_first_key(p, id, items.len() as int));
                lemma_first_key_unique(p, id, items.len() as int);
            } else {
                assert(!has_key(p, id));
            }
        },
    }
}

/// Looking an id up after an insert finds the inserted entry for its id
/// and what was there before for every other id.
pub proof fn lemma_get_upsert<T: Keyed>(items: Seq<T>, item: T, id: Seq<char>)
    requires
        keys_unique(items),
    ensures
        spec_get(spec_upsert(items, item), id) == (if item.key_view() == id {
            Some(item)
        } else {
            spec_get(items, id)
        }),
{
    let r = spec_upsert(items, item);
    lemma_lookup_some_iff_has_key(items, item.key_view());
    lemma_upsert_keeps_unique(items, item);
    lemma_lookup_some_iff_has_key(items, id);
    lemma_lookup_some_iff_has_key(r, id);
    match spec_lookup(items, item.key_view()) {
        Some(i) => {
            if item.key_view() == id {
                assert(is_first_key(r, id, i)) by {
                    assert forall|j: int| 0 <= j < i implies r[j].key_view() != id by {
                        assert(items[j].key_view() != items[i].key_view());
                    }
                }
                lemma_first_key_unique(r, id, i);
            } else {
                if has_key(items, id) {
                    let k = spec_lookup(items, id)->0;
                    assert(k != i);
                    assert(is_first_key(r, id, k)) by {
                        assert forall|j: int| 0 <= j < k implies r[j].key_view() != id by {
                            if j != i {
                                assert(items[j].key_view() != items[k].key_view());
                            }
                        }
                    }
                    lemma_first_key_unique(r, id, k);
                    lemma_lookup_some_iff_has_key(items, id);
                    let k2 = choose|k2: int| is_first_key(items, id, k2);
                    assert(is_first_key(items, id, k2));
                    lemma_first_key_unique(items, id, k2);
                } else {
                    assert forall|j: int| 0 <= j < r.len() implies r[j].key_view() != id by {
                        if j != i {
                            assert(items[j].key_view() != id);
                        }
                    }
                    assert(!has_key(r, id));
                }
            }
        },
        None => {
            lemma_get_push(items, item, id);
        },
    }
}

/// Stats of a structure type.
#[derive(Debug)]
pub struct StructureStats {
    pub id: String,
    /// `type` field, e.g. `WALL`, `DEFENSE`.
    pub structure_type: Option<String>,
    /// Footprint width in tiles.
    pub width: Option<u32>,
    /// Footprint breadth in tiles.
    pub breadth: Option<u32>,
    /// Wall towers, hardpoints and gates join up with adjacent walls.
    pub combines_with_wall: bool,
    /// The structure's PIE model.
    pub model: Option<String>,
    /// Weapon stat ids mounted on the structure.
    pub weapons: Vec<String>,
    /// ECM turret stat id.
    pub ecm_id: Option<String>,
    /// Sensor turret stat id.
    pub sensor_id: Option<String>,
}

/// The model a body uses with one propulsion (`propulsionExtraModels`).
#[derive(Debug)]
pub struct PropulsionModel {
    pub propulsion: String,
    pub model: String,
}

/// Stats of a droid body, with the classification flags the designer reads.
#[derive(Debug)]
pub struct BodyStats {
    pub id: String,
    /// `class`, e.g. `Cyborgs`; `None` for ordinary droids.
    pub body_class: Option<String>,
    pub designable: bool,
    pub usage_class: Option<String>,
    /// The body is a (light, medium or heavy) cyborg body.
    pub cyborg: bool,
    /// The body is a super-cyborg body.
    pub super_cyborg: bool,
    /// The body is a transporter body.
    pub transporter: bool,
    /// The body is a scavenger body.
    pub scavenger: bool,
    /// Weapon turrets the body can carry.
    pub weapon_slot_count: u8,
    pub build_power: Option<u32>,
    /// The body's PIE model.
    pub model: Option<String>,
    /// Body-specific propulsion models, keyed by propulsion id.
    pub propulsion_models: Vec<PropulsionModel>,
}

/// Stats of a propulsion component.
#[derive(Debug)]
pub struct PropulsionStats {
    pub id: String,
    /// `type`, e.g. `WHEELED`, `LEGGED`, `LIFT`.
    pub propulsion_type: Option<String>,
    pub designable: bool,
    pub usage_class: Option<String>,
    pub weight: Option<u32>,
    /// The propulsion's PIE model.
    pub model: Option<String>,
}

/// Stats of a weapon component.
#[derive(Debug)]
pub struct WeaponStats {
    pub id: String,
    pub designable: bool,
    pub usage_class: Option<String>,
    /// `numAttackRuns`; positive for VTOL weapons.
    pub num_attack_runs: Option<u32>,
    /// The weapon's turret PIE model.
    pub model: Option<String>,
    /// The mount drawn under the turret.
    pub mount_model: Option<String>,
}

impl WeaponStats {
    pub open spec fn spec_is_vtol(&self) -> bool {
        self.num_attack_runs matches Some(n) && n > 0
    }

    /// VTOL weapons are those with a positive `numAttackRuns`.
    pub fn is_vtol(&self) -> (r: bool)
        ensures
            r == self.spec_is_vtol(),
    {
        match self.num_attack_runs {
            Some(n) => n > 0,
            None => false,
        }
    }
}

/// Stats of a system turret (sensor, ECM, repair, constructor or brain).
#[derive(Debug)]
pub struct TurretStats {
    pub id: String,
    pub usage_class: Option<String>,
    /// The turret's PIE model (a sensor, ECM, repair or constructor head).
    pub model: Option<String>,
    /// The mount drawn under the turret.
    pub mount_model: Option<String>,
    /// For a brain: the weapon its turret carries.
    pub turret: Option<String>,
}

/// Stats of a feature type (trees, boulders, oil resources, ...).
#[derive(Debug)]
pub struct FeatureStats {
    pub id: String,
    /// `type` field, e.g. `OIL RESOURCE`, `TREE`.
    pub feature_type: Option<String>,
    /// The feature's PIE model.
    pub model: Option<String>,
}

/// A droid template: body, propulsion and turrets by stat id.
#[derive(Debug)]
pub struct TemplateStats {
    pub id: String,
    pub body: String,
    pub propulsion: String,
    pub weapons: Vec<String>,
    pub name: Option<String>,
    pub droid_type: Option<String>,
    pub construct: Option<String>,
    pub sensor: Option<String>,
    pub repair: Option<String>,
    pub ecm: Option<String>,
    pub brain: Option<String>,
}

/// A copy of an optional text.
pub fn clone_opt_string(o: &Option<String>) -> (r: Option<String>)
    ensures
        r == *o,
{
    match o {
        Some(s) => Some(s.clone()),
        None => None,
    }
}

/// A copy of a list of ids.
pub fn clone_strings(v: &Vec<String>) -> (r: Vec<String>)
    ensures
        r@ == v@,
{
    let mut out: Vec<String> = Vec::new();
    let mut i: usize = 0;
    while i < v.len()
        invariant
            i <= v@.len(),
            out@ == v@.take(i as int),
        decreases v@.len() - i,
    {
        out.push(v[i].clone());
        proof {
            assert(v@.take(i as int + 1) =~= v@.take(i as int).push(v@[i as int]));
        }
        i = i + 1;
    }
    proof {
        assert(v@.take(v@.len() as int) =~= v@);
    }
    out
}

impl Clone for TemplateStats {
    fn clone(&self) -> (r: Self)
        ensures
            r.id == self.id,
            r.body == self.body,
            r.propulsion == self.propulsion,
            r.weapons@ == self.weapons@,
            r.name == self.name,
            r.droid_type == self.droid_type,
            r.construct == self.construct,
            r.sensor == self.sensor,
            r.repair == self.repair,
            r.ecm == self.ecm,
            r.brain == self.brain,
    {
        TemplateStats {
            id: self.id.clone(),
            body: self.body.clone(),
            propulsion: self.propulsion.clone(),
            weapons: clone_strings(&self.weapons),
            name: clone_opt_string(&self.name),
            droid_type: clone_opt_string(&self.droid_type),
            construct: clone_opt_string(&self.construct),
            sensor: clone_opt_string(&self.sensor),
            repair: clone_opt_string(&self.repair),
            ecm: clone_opt_string(&self.ecm),
            brain: clone_opt_string(&self.brain),
        }
    }
}

impl Keyed for StructureStats {
    open spec fn key_view(&self) -> Seq<char> {
        self.id@
    }

    fn key(&self) -> (r: &str) {
        self.id.as_str()
    }
}

impl Keyed for BodyStats {
    open spec fn key_view(&self) -> Seq<char> {
        self.id@
    }

    fn key(&self) -> (r: &str) {
        self.id.as_str()
    }
}

impl Keyed for PropulsionStats {
    open spec fn key_view(&self) -> Seq<char> {
        self.id@
    }

    fn key(&self) -> (r: &str) {
        self.id.as_str()
    }
}

impl Keyed for WeaponStats {
    open spec fn key_view(&self) -> Seq<char> {
        self.id@
    }

    fn key(&self) -> (r: &str) {
        self.id.as_str()
    }
}

impl Keyed for TurretStats {
    open spec fn key_view(&self) -> Seq<char> {
        self.id@
    }

    fn key(&self) -> (r: &str) {
        self.id.as_str()
    }
}

impl Keyed for FeatureStats {
    open spec fn key_view(&self) -> Seq<char> {
        self.id@
    }

    fn key(&self) -> (r: &str) {
        self.id.as_str()
    }
}

impl Keyed for PropulsionModel {
    open spec fn key_view(&self) -> Seq<char> {
        self.propulsion@
    }

    fn key(&self) -> (r: &str) {
        self.propulsion.as_str()
    }
}

impl Keyed for TemplateStats {
    open spec fn key_view(&self) -> Seq<char> {
        self.id@
    }

    fn key(&self) -> (r: &str) {
        self.id.as_str()
    }
}

/// All stats tables.
#[derive(Debug)]
pub struct StatsDatabase {
    pub structures: Vec<StructureStats>,
    pub bodies: Vec<BodyStats>,
    pub propulsion: Vec<PropulsionStats>,
    pub weapons: Vec<WeaponStats>,
    pub sensor: Vec<TurretStats>,
    pub ecm: Vec<TurretStats>,
    pub repair: Vec<TurretStats>,
    pub construct: Vec<TurretStats>,
    pub brain: Vec<TurretStats>,
    pub templates: Vec<TemplateStats>,
    pub features: Vec<FeatureStats>,
}

impl StatsDatabase {
    /// Every table has at most one entry per id.
    pub open spec fn wf(&self) -> bool {
        &&& keys_unique(self.structures@)
        &&& keys_unique(self.bodies@)
        &&& keys_unique(self.propulsion@)
        &&& keys_unique(self.weapons@)
        &&& keys_unique(self.sensor@)
        &&& keys_unique(self.ecm@)
        &&& keys_unique(self.repair@)
        &&& keys_unique(self.construct@)
        &&& keys_unique(self.brain@)
        &&& keys_unique(self.templates@)
        &&& keys_unique(self.features@)
    }

    /// An empty database.
    pub fn new() -> (r: Self)
        ensures
            r.wf(),
            r.structures@.len() == 0,
            r.bodies@.len() == 0,
            r.propulsion@.len() == 0,
            r.weapons@.len() == 0,
            r.sensor@.len() == 0,
            r.ecm@.len() == 0,
            r.repair@.len() == 0,
            r.construct@.len() == 0,
            r.brain@.len() == 0,
            r.templates@.len() == 0,
            r.features@.len() == 0,
    {
        StatsDatabase {
            structures: Vec::new(),
            bodies: Vec::new(),
            propulsion: Vec::new(),
            weapons: Vec::new(),
            sensor: Vec::new(),
            ecm: Vec::new(),
            repair: Vec::new(),
            construct: Vec::new(),
            brain: Vec::new(),
            templates: Vec::new(),
            features: Vec::new(),
        }
    }
}

} // verus!
