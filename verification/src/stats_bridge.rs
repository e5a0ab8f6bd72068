//! What map validation needs to know of the objects on a map, read from the
//! stats database: a structure's type and footprint, a feature's type, and
//! a droid template's type and whether it carries a construction turret.

use vstd::prelude::*;
use crate::stats::{clone_opt_string, find_key, spec_get, StatsDatabase};

verus! {

/// A structure as validation sees it.
#[derive(Debug)]
pub struct StructureInfo {
    pub structure_type: Option<String>,
    /// Footprint in tiles.
    pub width: u32,
    pub breadth: u32,
}

/// A feature as validation sees it.
#[derive(Debug)]
pub struct FeatureInfo {
    pub feature_type: Option<String>,
}

/// A droid template as validation sees it.
#[derive(Debug)]
pub struct TemplateInfo {
    pub droid_type: Option<String>,
    pub has_construct: bool,
}

/// Answers validation's questions from a stats database.
pub struct StatsBridge<'a>(pub &'a StatsDatabase);

impl StatsBridge<'_> {
    /// The named structure's type and footprint; a footprint the stats
    /// leave out is one tile.
    pub fn structure_info(&self, name: &str) -> (r: Option<StructureInfo>)
        ensures
            match spec_get(self.0.structures@, name@) {
                Some(s) => r matches Some(i) && i.structure_type == s.structure_type
                    && i.width == (match s.width { Some(w) => w, None => 1u32 })
                    && i.breadth == (match s.breadth { Some(b) => b, None => 1u32 }),
                None => r is None,
            },
    {
        match find_key(&self.0.structures, name) {
            Some(k) => {
                let s = &self.0.structures[k];
                Some(StructureInfo {
                    structure_type: clone_opt_string(&s.structure_type),
                    width: match s.width {
                        Some(w) => w,
                        None => 1,
                    },
                    breadth: match s.breadth {
                        Some(b) => b,
                        None => 1,
                    },
                })
            },
            None => None,
        }
    }

    /// The named feature's type.
    pub fn feature_info(&self, name: &str) -> (r: Option<FeatureInfo>)
        ensures
            match spec_get(self.0.features@, name@) {
                Some(f) => r matches Some(i) && i.feature_type == f.feature_type,
                None => r is None,
            },
    {
        match find_key(&self.0.features, name) {
            Some(k) => Some(FeatureInfo { feature_type: clone_opt_string(&self.0.features[k].feature_type) }),
            None => None,
        }
    }

    /// The named template's droid type, and whether it has a construction
    /// turret.
    pub fn template_info(&self, name: &str) -> (r: Option<TemplateInfo>)
        ensures
            match spec_get(self.0.templates@, name@) {
                Some(t) => r matches Some(i) && i.droid_type == t.droid_type && i.has_construct == t.construct is Some,
                None => r is None,
            },
    {
        match find_key(&self.0.templates, name) {
            Some(k) => {
                let t = &self.0.templates[k];
                Some(TemplateInfo { droid_type: clone_opt_string(&t.droid_type), has_construct: t.construct.is_some() })
            },
            None => None,
        }
    }
}

} // verus!
