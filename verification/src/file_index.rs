//! Case-insensitive index from file name to path for the model files
//! (`.pie`) and texture pages (`.png`, `.ktx2`) under the game data. Each
//! file is filed under its own name and, when that differs, under its
//! lower-cased name; the first file seen under a name keeps it. A lookup
//! tries the exact name, then the lower-cased one.

use vstd::prelude::*;
use crate::help_search::{lowercase, to_lowercase};
use crate::keyed_table::Named;
use crate::stats::{contains_key, find_key, has_key, lemma_get_push, lemma_lookup_some_iff_has_key, spec_get};
use crate::text::{eq_ignore_case, owned, str_eq, str_eq_ignore_case};

verus! {

/// The index: file names and the paths filed under them.
#[derive(Debug)]
pub struct FileIndex {
    entries: Vec<Named<String>>,
}

/// The map a list of entries stands for: each name to the path of its
/// first entry.
pub open spec fn entries_map(entries: Seq<Named<String>>) -> Map<Seq<char>, Seq<char>> {
    Map::new(|k: Seq<char>| has_key(entries, k), |k: Seq<char>| spec_get(entries, k)->0.value@)
}

/// `m` with `k` filed under `v` unless `k` is already there.
pub open spec fn or_insert(m: Map<Seq<char>, Seq<char>>, k: Seq<char>, v: Seq<char>) -> Map<Seq<char>, Seq<char>> {
    if m.dom().contains(k) { m } else { m.insert(k, v) }
}

/// Whether a file extension marks a file the index holds: `pie`, `png` or
/// `ktx2`, in any ASCII case.
pub open spec fn indexed_extension(ext: Seq<char>) -> bool {
    ||| eq_ignore_case(ext, seq!['p', 'i', 'e'])
    ||| eq_ignore_case(ext, seq!['p', 'n', 'g'])
    ||| eq_ignore_case(ext, seq!['k', 't', 'x', '2'])
}

/// The index after seeing a file `name` with extension `ext` at `path`.
pub open spec fn spec_add_file(m: Map<Seq<char>, Seq<char>>, name: Seq<char>, ext: Seq<char>, path: Seq<char>) -> Map<
    Seq<char>,
    Seq<char>,
> {
    if indexed_extension(ext) {
        let m1 = or_insert(m, name, path);
        if lowercase(name) != name {
            or_insert(m1, lowercase(name), path)
        } else {
            m1
        }
    } else {
        m
    }
}

/// What a lookup of `name` finds: the path filed under `name`, else the
/// one filed under its lower-cased form.
pub open spec fn spec_lookup_file(m: Map<Seq<char>, Seq<char>>, name: Seq<char>) -> Option<Seq<char>> {
    if m.dom().contains(name) {
        Some(m[name])
    } else if m.dom().contains(lowercase(name)) {
        Some(m[lowercase(name)])
    } else {
        None
    }
}

impl View for FileIndex {
    type V = Map<Seq<char>, Seq<char>>;

    closed spec fn view(&self) -> Map<Seq<char>, Seq<char>> {
        entries_map(self.entries@)
    }
}

/// Whether a file with this extension belongs in the index.
pub fn is_indexed_extension(ext: &str) -> (r: bool)
    ensures
        r == indexed_extension(ext@),
{
    let pie = owned("pie");
    let png = owned("png");
    let ktx2 = owned("ktx2");
    proof {
        reveal_strlit("pie");
        reveal_strlit("png");
        reveal_strlit("ktx2");
        assert(pie@ =~= seq!['p', 'i', 'e']);
        assert(png@ =~= seq!['p', 'n', 'g']);
        assert(ktx2@ =~= seq!['k', 't', 'x', '2']);
    }
    str_eq_ignore_case(ext, pie.as_str()) || str_eq_ignore_case(ext, png.as_str())
        || str_eq_ignore_case(ext, ktx2.as_str())
}

impl FileIndex {
    /// An empty index.
    pub fn new() -> (r: Self)
        ensures
            r@ == Map::<Seq<char>, Seq<char>>::empty(),
    {
        let r = FileIndex { entries: Vec::new() };
        proof {
            assert(r@ =~= Map::<Seq<char>, Seq<char>>::empty());
        }
        r
    }

    /// File `path` under `name` unless the name is taken.
    pub fn insert_if_absent(&mut self, name: &str, path: &str)
        ensures
            final(self)@ == or_insert(old(self)@, name@, path@),
    {
        if !contains_key(&self.entries, name) {
            let ghost before = self.entries@;
            let item = Named { name: owned(name), value: owned(path) };
            self.entries.push(item);
            proof {
                let after = self.entries@;
                assert(after == before.push(item));
                assert forall|k: Seq<char>| has_key(after, k) == (has_key(before, k) || k == name@) by {
                    if k == name@ {
                        assert(after[before.len() as int].name@ == k);
                    }
                    if has_key(before, k) {
                        let i = choose|i: int| 0 <= i < before.len() && before[i].name@ == k;
                        assert(after[i] == before[i]);
                    }
                    if has_key(after, k) && k != name@ {
                        let i = choose|i: int| 0 <= i < after.len() && after[i].name@ == k;
                        assert(i < before.len());
                        assert(before[i] == after[i]);
                    }
                }
                assert forall|k: Seq<char>| #[trigger] has_key(after, k) implies spec_get(after, k)->0.value@ == (
                if has_key(before, k) {
                    spec_get(before, k)->0.value@
                } else {
                    path@
                }) by {
                    lemma_get_push(before, item, k);
                    lemma_lookup_some_iff_has_key(before, k);
                }
                assert(entries_map(after) =~= entries_map(before).insert(name@, path@));
            }
        }
    }

    /// The path filed under exactly `name`.
    pub fn get(&self, name: &str) -> (r: Option<&String>)
        ensures
            match r {
                Some(p) => self@.dom().contains(name@) && p@ == self@[name@],
                None => !self@.dom().contains(name@),
            },
    {
        proof {
            lemma_lookup_some_iff_has_key(self.entries@, name@);
        }
        match find_key(&self.entries, name) {
            Some(i) => Some(&self.entries[i].value),
            None => None,
        }
    }

    /// Take in one file met while walking the data directories: its name,
    /// extension and path. Files of other kinds are left out.
    pub fn add_file(&mut self, name: &str, ext: &str, path: &str)
        ensures
            final(self)@ == spec_add_file(old(self)@, name@, ext@, path@),
    {
        if is_indexed_extension(ext) {
            self.insert_if_absent(name, path);
            let lower = to_lowercase(name);
            if !str_eq(lower.as_str(), name) {
                self.insert_if_absent(lower.as_str(), path);
            }
        }
    }
}

/// Look a file up by name: the exact name first, then its lower-cased form.
pub fn lookup_in_index<'a>(file_index: &'a FileIndex, imd_name: &str) -> (r: Option<&'a String>)
    ensures
        match r {
            Some(p) => spec_lookup_file(file_index@, imd_name@) == Some(p@),
            None => spec_lookup_file(file_index@, imd_name@) is None,
        },
{
    match file_index.get(imd_name) {
        Some(p) => Some(p),
        None => {
            let lower = to_lowercase(imd_name);
            file_index.get(lower.as_str())
        },
    }
}

/// A file taken into the index is found by any name whose lower-cased form
/// is the file's lower-cased name, whatever the case it was written in.
pub proof fn lemma_indexed_file_is_found(
    m: Map<Seq<char>, Seq<char>>,
    name: Seq<char>,
    ext: Seq<char>,
    path: Seq<char>,
    query: Seq<char>,
)
    requires
        indexed_extension(ext),
        lowercase(query) == lowercase(name),
    ensures
        spec_lookup_file(spec_add_file(m, name, ext, path), query) is Some,
{
    let r = spec_add_file(m, name, ext, path);
    assert(r.dom().contains(lowercase(name)));
}

/// The first file seen under a name, in any case, is what a lookup of
/// that name gives; a later file of the same name does not replace it.
pub proof fn lemma_first_file_wins(
    m: Map<Seq<char>, Seq<char>>,
    name: Seq<char>,
    ext: Seq<char>,
    path: Seq<char>,
    later_ext: Seq<char>,
    later_path: Seq<char>,
)
    requires
        indexed_extension(ext),
        !m.dom().contains(name),
    ensures
        spec_lookup_file(spec_add_file(m, name, ext, path), name) == Some(path),
        spec_lookup_file(spec_add_file(spec_add_file(m, name, ext, path), name, later_ext, later_path), name) == Some(path),
{
}

} // verus!
