//! Cache state of the model loader: the object-name to model table, the
//! parsed-model cache, the set of models uploaded to the GPU, the set of
//! models known to be missing, connector positions, an interning pool and
//! the active tileset.
//!
//! A model name lives in at most one of the parsed cache, the uploaded set
//! and the missing set: `insert_parsed` refuses uploaded names and takes a
//! name off the missing set when it stores it, `promote_to_uploaded` moves a
//! parsed model into the uploaded set, and `mark_uploaded` and
//! `mark_not_found` evict the name's other entries first.
use vstd::prelude::*;
use std::sync::Arc;

use crate::keyed_table::{
    keyset, lemma_keyset_len, lemma_keyset_upsert, lemma_valmap_after_remove, lemma_valmap_upsert, remove_key, valmap,
    Named,
};
use crate::stats::{find_key, keys_unique, lemma_lookup_some_iff_has_key, upsert, StatsDatabase};
use crate::stats_mapper::{build_imd_map, imd_get, spec_imd_for, ImdEntry};
use crate::text::owned;

verus! {

/// A second handle to the same shared string.
///
/// Calls `Arc::clone`, which returns a pointer to the same allocation; the
/// contract states only that the value behind it is the same.
#[verifier::external_body]
fn share(a: &Arc<String>) -> (r: Arc<String>)
    ensures
        r == *a,
{
    Arc::clone(a)
}

/// The mathematical content of a [`LoaderCache`].
pub struct LoaderView<P, C> {
    pub uploaded: Set<Seq<char>>,
    pub parsed: Map<Seq<char>, P>,
    pub not_found: Set<Seq<char>>,
    pub connectors: Map<Seq<char>, C>,
    pub interned: Map<Seq<char>, Arc<String>>,
    pub tileset: usize,
}

/// Cache state of the model loader, generic over the parsed-model type `P`
/// and the connector list type `C`.
pub struct LoaderCache<P, C> {
    imd_map: Vec<ImdEntry>,
    uploaded: Vec<String>,
    parsed_cache: Vec<Named<P>>,
    not_found_cache: Vec<String>,
    connector_cache: Vec<Named<C>>,
    interned_names: Vec<Named<Arc<String>>>,
    tileset_index: usize,
}

impl<P, C> View for LoaderCache<P, C> {
    type V = LoaderView<P, C>;

    closed spec fn view(&self) -> LoaderView<P, C> {
        LoaderView {
            uploaded: keyset(self.uploaded@),
            parsed: valmap(self.parsed_cache@),
            not_found: keyset(self.not_found_cache@),
            connectors: valmap(self.connector_cache@),
            interned: valmap(self.interned_names@),
            tileset: self.tileset_index,
        }
    }
}

impl<P, C> LoaderView<P, C> {
    /// No model name is both parsed and uploaded.
    pub open spec fn parsed_not_uploaded(self) -> bool {
        forall|k: Seq<char>| !(#[trigger] self.parsed.dom().contains(k) && self.uploaded.contains(k))
    }

    /// Every model name lives in at most one of the parsed cache, the
    /// uploaded set and the missing set.
    pub open spec fn single_residency(self) -> bool {
        &&& self.parsed_not_uploaded()
        &&& forall|k: Seq<char>| !(#[trigger] self.parsed.dom().contains(k) && self.not_found.contains(k))
        &&& forall|k: Seq<char>| !(#[trigger] self.uploaded.contains(k) && self.not_found.contains(k))
    }
}

impl<P, C> LoaderCache<P, C> {
    /// Every table has unique names, and no name is both parsed and uploaded.
    pub closed spec fn wf(&self) -> bool {
        &&& keys_unique(self.imd_map@)
        &&& keys_unique(self.uploaded@)
        &&& keys_unique(self.parsed_cache@)
        &&& keys_unique(self.not_found_cache@)
        &&& keys_unique(self.connector_cache@)
        &&& keys_unique(self.interned_names@)
        &&& forall|i: int| 0 <= i < self.interned_names@.len() ==> (*(#[trigger] self.interned_names@[i]).value)@
            == self.interned_names@[i].name@
        &&& self@.parsed_not_uploaded()
    }

    /// The model an object name maps to.
    pub closed spec fn imd(&self, name: Seq<char>) -> Option<Seq<char>> {
        imd_get(self.imd_map@, name)
    }

    /// Number of names in the object-name to model table.
    pub closed spec fn imd_count(&self) -> nat {
        self.imd_map@.len()
    }

    /// An empty cache whose object-name to model table comes from the stats.
    pub fn new(stats: &StatsDatabase) -> (r: Self)
        requires
            stats.wf(),
        ensures
            r.wf(),
            r@.uploaded.is_empty(),
            r@.parsed.is_empty(),
            r@.not_found.is_empty(),
            r@.connectors.is_empty(),
            r@.interned.is_empty(),
            r@.tileset == 0,
            r@.single_residency(),
            forall|k: Seq<char>| #[trigger] r.imd(k) == spec_imd_for(*stats, k),
    {
        let r = LoaderCache {
            imd_map: build_imd_map(stats),
            uploaded: Vec::new(),
            parsed_cache: Vec::new(),
            not_found_cache: Vec::new(),
            connector_cache: Vec::new(),
            interned_names: Vec::new(),
            tileset_index: 0,
        };
        proof {
            assert(r@.uploaded =~= Set::empty());
            assert(r@.parsed =~= Map::empty());
            assert(r@.not_found =~= Set::empty());
            assert(r@.connectors =~= Map::empty());
            assert(r@.interned =~= Map::empty());
        }
        r
    }

    /// The model an object name maps to.
    pub fn imd_for_object(&self, name: &str) -> (r: Option<&str>)
        requires
            self.wf(),
        ensures
            match r {
                Some(s) => self.imd(name@) == Some(s@),
                None => self.imd(name@) is None,
            },
    {
        match find_key(&self.imd_map, name) {
            Some(i) => Some(self.imd_map[i].imd.as_str()),
            None => None,
        }
    }

    /// The active tileset.
    pub fn tileset_index(&self) -> (r: usize)
        ensures
            r == self@.tileset,
    {
        self.tileset_index
    }

    /// Switch the active tileset. Uploaded textures depend on the tileset,
    /// so the uploaded set is cleared; parsed models and connectors do not
    /// and stay. Returns whether the index changed.
    pub fn set_tileset(&mut self, index: usize) -> (changed: bool)
        requires
            old(self).wf(),
        ensures
            final(self).wf(),
            changed == (index != old(self)@.tileset),
            final(self)@.tileset == index,
            final(self)@.uploaded == (if changed {
                Set::<Seq<char>>::empty()
            } else {
                old(self)@.uploaded
            }),
            final(self)@.parsed == old(self)@.parsed,
            final(self)@.not_found == old(self)@.not_found,
            final(self)@.connectors == old(self)@.connectors,
            final(self)@.interned == old(self)@.interned,
            forall|k: Seq<char>| #[trigger] final(self).imd(k) == old(self).imd(k),
            old(self)@.single_residency() ==> final(self)@.single_residency(),
    {
        if self.tileset_index == index {
            return false;
        }
        self.tileset_index = index;
        self.uploaded = Vec::new();
        proof {
            assert(self@.uploaded =~= Set::empty());
        }
        true
    }

    /// Whether the model has been uploaded.
    pub fn is_uploaded(&self, name: &str) -> (r: bool)
        ensures
            r == self@.uploaded.contains(name@),
    {
        proof {
            lemma_lookup_some_iff_has_key(self.uploaded@, name@);
        }
        find_key(&self.uploaded, name).is_some()
    }

    /// Mark a model uploaded without going through the parsed cache (a
    /// model parsed in the background); stale parsed and missing entries
    /// under the name are evicted.
    pub fn mark_uploaded(&mut self, name: &str)
        requires
            old(self).wf(),
        ensures
            final(self).wf(),
            final(self)@.uploaded == old(self)@.uploaded.insert(name@),
            final(self)@.parsed == old(self)@.parsed.remove(name@),
            final(self)@.not_found == old(self)@.not_found.remove(name@),
            final(self)@.connectors == old(self)@.connectors,
            final(self)@.interned == old(self)@.interned,
            final(self)@.tileset == old(self)@.tileset,
            forall|k: Seq<char>| #[trigger] final(self).imd(k) == old(self).imd(k),
            old(self)@.single_residency() ==> final(self)@.single_residency(),
    {
        let _ = remove_key(&mut self.not_found_cache, name);
        let ghost p0 = self.parsed_cache@;
        let _ = remove_key(&mut self.parsed_cache, name);
        proof {
            lemma_valmap_after_remove(p0, self.parsed_cache@, name@);
        }
        let ghost u0 = self.uploaded@;
        let s = owned(name);
        proof {
            lemma_keyset_upsert(u0, s);
        }
        upsert(&mut self.uploaded, s);
        proof {
            assert forall|k: Seq<char>| !(#[trigger] self@.parsed.dom().contains(k) && self@.uploaded.contains(k)) by {
                if self@.parsed.dom().contains(k) {
                    assert(old(self)@.parsed.dom().contains(k) && k != name@);
                }
            }
        }
    }

    /// Whether a parsed model is cached.
    pub fn has_parsed(&self, name: &str) -> (r: bool)
        ensures
            r == self@.parsed.dom().contains(name@),
    {
        proof {
            lemma_lookup_some_iff_has_key(self.parsed_cache@, name@);
        }
        find_key(&self.parsed_cache, name).is_some()
    }

    /// The cached parsed model, if any.
    pub fn get_parsed(&self, name: &str) -> (r: Option<&P>)
        ensures
            match r {
                Some(p) => self@.parsed.dom().contains(name@) && *p == self@.parsed[name@],
                None => !self@.parsed.dom().contains(name@),
            },
    {
        proof {
            lemma_lookup_some_iff_has_key(self.parsed_cache@, name@);
        }
        match find_key(&self.parsed_cache, name) {
            Some(i) => Some(&self.parsed_cache[i].value),
            None => None,
        }
    }

    /// Cache a parsed model. Refused (returning false) when the model is
    /// already uploaded, which would put it in two places; when stored, a
    /// stale missing entry under the name is evicted, since the model was
    /// found after all.
    pub fn insert_parsed(&mut self, name: &str, parsed: P) -> (stored: bool)
        requires
            old(self).wf(),
        ensures
            final(self).wf(),
            stored == !old(self)@.uploaded.contains(name@),
            final(self)@.parsed == (if stored {
                old(self)@.parsed.insert(name@, parsed)
            } else {
                old(self)@.parsed
            }),
            final(self)@.uploaded == old(self)@.uploaded,
            final(self)@.not_found == (if stored {
                old(self)@.not_found.remove(name@)
            } else {
                old(self)@.not_found
            }),
            final(self)@.connectors == old(self)@.connectors,
            final(self)@.interned == old(self)@.interned,
            final(self)@.tileset == old(self)@.tileset,
            forall|k: Seq<char>| #[trigger] final(self).imd(k) == old(self).imd(k),
            old(self)@.single_residency() ==> final(self)@.single_residency(),
    {
        if self.is_uploaded(name) {
            return false;
        }
        let _ = remove_key(&mut self.not_found_cache, name);
        let e = Named { name: owned(name), value: parsed };
        proof {
            lemma_valmap_upsert(self.parsed_cache@, e);
        }
        upsert(&mut self.parsed_cache, e);
        proof {
            assert forall|k: Seq<char>| !(#[trigger] self@.parsed.dom().contains(k) && self@.uploaded.contains(k)) by {
                if self@.parsed.dom().contains(k) && k != name@ {
                    assert(old(self)@.parsed.dom().contains(k));
                }
            }
        }
        true
    }

    /// Move a parsed model into the uploaded set, handing it back; `None`
    /// when nothing was parsed under the name (nothing to upload).
    pub fn promote_to_uploaded(&mut self, name: &str) -> (r: Option<P>)
        requires
            old(self).wf(),
        ensures
            final(self).wf(),
            match r {
                Some(p) => {
                    &&& old(self)@.parsed.dom().contains(name@) && p == old(self)@.parsed[name@]
                    &&& final(self)@.parsed == old(self)@.parsed.remove(name@)
                    &&& final(self)@.uploaded == old(self)@.uploaded.insert(name@)
                },
                None => {
                    &&& !old(self)@.parsed.dom().contains(name@)
                    &&& final(self)@.parsed == old(self)@.parsed
                    &&& final(self)@.uploaded == old(self)@.uploaded
                },
            },
            final(self)@.not_found == old(self)@.not_found,
            final(self)@.connectors == old(self)@.connectors,
            final(self)@.interned == old(self)@.interned,
            final(self)@.tileset == old(self)@.tileset,
            forall|k: Seq<char>| #[trigger] final(self).imd(k) == old(self).imd(k),
            old(self)@.single_residency() ==> final(self)@.single_residency(),
    {
        let ghost p0 = self.parsed_cache@;
        proof {
            lemma_lookup_some_iff_has_key(p0, name@);
        }
        let parsed = remove_key(&mut self.parsed_cache, name);
        proof {
            lemma_valmap_after_remove(p0, self.parsed_cache@, name@);
        }
        match parsed {
            Some(e) => {
                let s = owned(name);
                proof {
                    lemma_keyset_upsert(self.uploaded@, s);
                }
                upsert(&mut self.uploaded, s);
                proof {
                    assert forall|k: Seq<char>| !(#[trigger] self@.parsed.dom().contains(k) && self@.uploaded.contains(k)) by {
                        if self@.parsed.dom().contains(k) {
                            assert(old(self)@.parsed.dom().contains(k) && k != name@);
                        }
                    }
                }
                Some(e.value)
            },
            None => {
                proof {
                    assert(self@.parsed =~= old(self)@.parsed);
                }
                None
            },
        }
    }

    /// Whether the model is known to be missing.
    pub fn is_not_found(&self, name: &str) -> (r: bool)
        ensures
            r == self@.not_found.contains(name@),
    {
        proof {
            lemma_lookup_some_iff_has_key(self.not_found_cache@, name@);
        }
        find_key(&self.not_found_cache, name).is_some()
    }

    /// Record a model as missing so later lookups stop early; stale parsed
    /// and uploaded entries are evicted so the two cannot disagree.
    pub fn mark_not_found(&mut self, name: &str)
        requires
            old(self).wf(),
        ensures
            final(self).wf(),
            final(self)@.parsed == old(self)@.parsed.remove(name@),
            final(self)@.uploaded == old(self)@.uploaded.remove(name@),
            final(self)@.not_found == old(self)@.not_found.insert(name@),
            final(self)@.connectors == old(self)@.connectors,
            final(self)@.interned == old(self)@.interned,
            final(self)@.tileset == old(self)@.tileset,
            forall|k: Seq<char>| #[trigger] final(self).imd(k) == old(self).imd(k),
            old(self)@.single_residency() ==> final(self)@.single_residency(),
    {
        let ghost p0 = self.parsed_cache@;
        let _ = remove_key(&mut self.parsed_cache, name);
        proof {
            lemma_valmap_after_remove(p0, self.parsed_cache@, name@);
        }
        let _ = remove_key(&mut self.uploaded, name);
        let s = owned(name);
        proof {
            lemma_keyset_upsert(self.not_found_cache@, s);
        }
        upsert(&mut self.not_found_cache, s);
        proof {
            assert forall|k: Seq<char>| !(#[trigger] self@.parsed.dom().contains(k) && self@.uploaded.contains(k)) by {
                if self@.parsed.dom().contains(k) {
                    assert(old(self)@.parsed.dom().contains(k));
                }
            }
        }
    }

    /// Connector positions of a model, if recorded.
    pub fn get_connectors(&self, name: &str) -> (r: Option<&C>)
        ensures
            match r {
                Some(c) => self@.connectors.dom().contains(name@) && *c == self@.connectors[name@],
                None => !self@.connectors.dom().contains(name@),
            },
    {
        proof {
            lemma_lookup_some_iff_has_key(self.connector_cache@, name@);
        }
        match find_key(&self.connector_cache, name) {
            Some(i) => Some(&self.connector_cache[i].value),
            None => None,
        }
    }

    /// Whether connector positions are recorded for a model.
    pub fn has_connectors(&self, name: &str) -> (r: bool)
        ensures
            r == self@.connectors.dom().contains(name@),
    {
        proof {
            lemma_lookup_some_iff_has_key(self.connector_cache@, name@);
        }
        find_key(&self.connector_cache, name).is_some()
    }

    /// Record (or replace) a model's connector positions.
    pub fn insert_connectors(&mut self, name: String, connectors: C)
        requires
            old(self).wf(),
        ensures
            final(self).wf(),
            final(self)@.connectors == old(self)@.connectors.insert(name@, connectors),
            final(self)@.parsed == old(self)@.parsed,
            final(self)@.uploaded == old(self)@.uploaded,
            final(self)@.not_found == old(self)@.not_found,
            final(self)@.interned == old(self)@.interned,
            final(self)@.tileset == old(self)@.tileset,
            forall|k: Seq<char>| #[trigger] final(self).imd(k) == old(self).imd(k),
            old(self)@.single_residency() ==> final(self)@.single_residency(),
    {
        let e = Named { name, value: connectors };
        proof {
            lemma_valmap_upsert(self.connector_cache@, e);
        }
        upsert(&mut self.connector_cache, e);
        proof {
            assert(self@.parsed == old(self)@.parsed);
            assert(self@.uploaded == old(self)@.uploaded);
        }
    }

    /// Record a model's connector positions unless some are recorded already
    /// (results merged from the background keep the foreground's).
    pub fn insert_connectors_if_absent(&mut self, name: String, connectors: C)
        requires
            old(self).wf(),
        ensures
            final(self).wf(),
            final(self)@.connectors == (if old(self)@.connectors.dom().contains(name@) {
                old(self)@.connectors
            } else {
                old(self)@.connectors.insert(name@, connectors)
            }),
            final(self)@.parsed == old(self)@.parsed,
            final(self)@.uploaded == old(self)@.uploaded,
            final(self)@.not_found == old(self)@.not_found,
            final(self)@.interned == old(self)@.interned,
            final(self)@.tileset == old(self)@.tileset,
            forall|k: Seq<char>| #[trigger] final(self).imd(k) == old(self).imd(k),
            old(self)@.single_residency() ==> final(self)@.single_residency(),
    {
        if self.has_connectors(name.as_str()) {
            return;
        }
        self.insert_connectors(name, connectors);
    }

    /// The names that have connector positions, for a background task
    /// that filters against them.
    pub fn connector_key_snapshot(&self) -> (r: Vec<String>)
        requires
            self.wf(),
        ensures
            keys_unique(r@),
            keyset(r@) == self@.connectors.dom(),
    {
        let mut out: Vec<String> = Vec::new();
        let mut i: usize = 0;
        while i < self.connector_cache.len()
            invariant
                i <= self.connector_cache@.len(),
                keys_unique(self.connector_cache@),
                out@.len() == i,
                forall|j: int| 0 <= j < i ==> (#[trigger] out@[j])@ == self.connector_cache@[j].name@,
            decreases self.connector_cache@.len() - i,
        {
            out.push(self.connector_cache[i].name.clone());
            i = i + 1;
        }
        proof {
            assert forall|a: int, b: int| 0 <= a < out@.len() && 0 <= b < out@.len() && a != b implies out@[a]@
                != out@[b]@ by {
                assert(self.connector_cache@[a].name@ != self.connector_cache@[b].name@);
            }
            assert forall|k: Seq<char>| keyset(out@).contains(k) <==> self@.connectors.dom().contains(k) by {
                if crate::stats::has_key(out@, k) {
                    let j = choose|j: int| 0 <= j < out@.len() && out@[j]@ == k;
                    assert(self.connector_cache@[j].name@ == k);
                }
                if crate::stats::has_key(self.connector_cache@, k) {
                    let j = choose|j: int| 0 <= j < self.connector_cache@.len() && self.connector_cache@[j].name@ == k;
                    assert(out@[j]@ == k);
                }
            }
            assert(keyset(out@) =~= self@.connectors.dom());
        }
        out
    }

    /// One shared copy of each name: a repeated name gets the handle made
    /// the first time.
    pub fn intern(&mut self, name: &str) -> (r: Arc<String>)
        requires
            old(self).wf(),
        ensures
            final(self).wf(),
            (*r)@ == name@,
            old(self)@.interned.dom().contains(name@) ==> r == old(self)@.interned[name@],
            final(self)@.interned.dom().contains(name@) && final(self)@.interned[name@] == r,
            final(self)@.parsed == old(self)@.parsed,
            final(self)@.uploaded == old(self)@.uploaded,
            final(self)@.not_found == old(self)@.not_found,
            final(self)@.connectors == old(self)@.connectors,
            final(self)@.tileset == old(self)@.tileset,
            forall|k: Seq<char>| #[trigger] final(self).imd(k) == old(self).imd(k),
            old(self)@.single_residency() ==> final(self)@.single_residency(),
    {
        proof {
            lemma_lookup_some_iff_has_key(self.interned_names@, name@);
        }
        match find_key(&self.interned_names, name) {
            Some(i) => {
                proof {
                    assert(self.interned_names@[i as int].name@ == name@);
                }
                share(&self.interned_names[i].value)
            },
            None => {
                let arc = Arc::new(owned(name));
                let e = Named { name: owned(name), value: share(&arc) };
                proof {
                    lemma_valmap_upsert(self.interned_names@, e);
                }
                let ghost i0 = old(self).interned_names@;
                upsert(&mut self.interned_names, e);
                proof {
                    assert(self@.parsed == old(self)@.parsed);
                    assert(self@.uploaded == old(self)@.uploaded);
                    assert forall|i: int| 0 <= i < self.interned_names@.len() implies (*(#[trigger] self.interned_names@[i]).value)@
                        == self.interned_names@[i].name@ by {
                        if i < i0.len() {
                            assert(self.interned_names@[i] == i0[i]);
                        }
                    }
                }
                arc
            },
        }
    }

    /// Number of names in the object-name to model table.
    pub fn imd_map_len(&self) -> (r: usize)
        ensures
            r == self.imd_count(),
    {
        self.imd_map.len()
    }

    /// Number of uploaded models.
    pub fn uploaded_len(&self) -> (r: usize)
        requires
            self.wf(),
        ensures
            r == self@.uploaded.len(),
    {
        proof {
            lemma_keyset_len(self.uploaded@);
        }
        self.uploaded.len()
    }

    /// Number of cached parsed models.
    pub fn parsed_cache_len(&self) -> (r: usize)
        requires
            self.wf(),
        ensures
            r == self@.parsed.len(),
    {
        proof {
            lemma_keyset_len(self.parsed_cache@);
            assert(self@.parsed.dom() =~= keyset(self.parsed_cache@));
        }
        self.parsed_cache.len()
    }

    /// Number of models known to be missing.
    pub fn not_found_cache_len(&self) -> (r: usize)
        requires
            self.wf(),
        ensures
            r == self@.not_found.len(),
    {
        proof {
            lemma_keyset_len(self.not_found_cache@);
        }
        self.not_found_cache.len()
    }
}

} // verus!
