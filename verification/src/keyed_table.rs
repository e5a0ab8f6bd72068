//! Vectors of uniquely keyed entries seen as finite maps and sets: the
//! views, and removing an entry by key.
use vstd::prelude::*;

use crate::stats::{
    find_key, has_key, is_first_key, keys_unique, lemma_first_key_unique, lemma_get_upsert,
    lemma_lookup_some_iff_has_key, lemma_upsert_keeps_unique, spec_get, spec_lookup, spec_upsert, Keyed,
};

verus! {

/// A value filed under a name.
#[derive(Debug)]
pub struct Named<T> {
    pub name: String,
    pub value: T,
}

impl<T> Keyed for Named<T> {
    open spec fn key_view(&self) -> Seq<char> {
        self.name@
    }

    fn key(&self) -> (r: &str) {
        self.name.as_str()
    }
}

impl Keyed for String {
    open spec fn key_view(&self) -> Seq<char> {
        self@
    }

    fn key(&self) -> (r: &str) {
        self.as_str()
    }
}

/// The ids present in a table.
pub open spec fn keyset<T: Keyed>(items: Seq<T>) -> Set<Seq<char>> {
    Set::new(|k: Seq<char>| has_key(items, k))
}

/// A table of named values as a map from name to value.
pub open spec fn valmap<T>(items: Seq<Named<T>>) -> Map<Seq<char>, T> {
    Map::new(|k: Seq<char>| has_key(items, k), |k: Seq<char>| spec_get(items, k)->0.value)
}

/// The ids of a table, listed in order.
pub open spec fn key_list<T: Keyed>(items: Seq<T>) -> Seq<Seq<char>> {
    items.map_values(|x: T| x.key_view())
}

/// A table with unique ids has as many ids as entries.
pub proof fn lemma_keyset_len<T: Keyed>(items: Seq<T>)
    requires
        keys_unique(items),
    ensures
        keyset(items).finite(),
        keyset(items).len() == items.len(),
{
    let ks = key_list(items);
    assert(ks.no_duplicates()) by {
        assert forall|i: int, j: int| 0 <= i < ks.len() && 0 <= j < ks.len() && i != j implies ks[i] != ks[j] by {
            assert(items[i].key_view() != items[j].key_view());
        }
    }
    ks.unique_seq_to_set();
    assert(keyset(items) =~= ks.to_set()) by {
        assert forall|k: Seq<char>| keyset(items).contains(k) <==> ks.to_set().contains(k) by {
            if has_key(items, k) {
                let i = choose|i: int| 0 <= i < items.len() && items[i].key_view() == k;
                assert(ks[i] == k);
                assert(ks.contains(k));
            }
            if ks.contains(k) {
                let i = choose|i: int| 0 <= i < ks.len() && ks[i] == k;
                assert(items[i].key_view() == k);
            }
        }
    }
}

/// Inserting files the entry under its id and leaves every other id alone.
pub proof fn lemma_keyset_upsert<T: Keyed>(items: Seq<T>, item: T)
    requires
        keys_unique(items),
    ensures
        keys_unique(spec_upsert(items, item)),
        keyset(spec_upsert(items, item)) == keyset(items).insert(item.key_view()),
{
    lemma_upsert_keeps_unique(items, item);
    let r = spec_upsert(items, item);
    assert forall|k: Seq<char>| keyset(r).contains(k) <==> keyset(items).insert(item.key_view()).contains(k) by {
        lemma_get_upsert(items, item, k);
        lemma_lookup_some_iff_has_key(items, k);
        lemma_lookup_some_iff_has_key(r, k);
    }
    assert(keyset(r) =~= keyset(items).insert(item.key_view()));
}

/// Inserting a named value updates the map view at that name.
pub proof fn lemma_valmap_upsert<T>(items: Seq<Named<T>>, item: Named<T>)
    requires
        keys_unique(items),
    ensures
        keys_unique(spec_upsert(items, item)),
        valmap(spec_upsert(items, item)) == valmap(items).insert(item.name@, item.value),
{
    lemma_upsert_keeps_unique(items, item);
    let r = spec_upsert(items, item);
    assert forall|k: Seq<char>| #![trigger valmap(r).dom().contains(k)]
        valmap(r).dom().contains(k) <==> valmap(items).insert(item.name@, item.value).dom().contains(k) by {
        lemma_get_upsert(items, item, k);
        lemma_lookup_some_iff_has_key(items, k);
        lemma_lookup_some_iff_has_key(r, k);
    }
    assert forall|k: Seq<char>| #[trigger] valmap(r).dom().contains(k) implies valmap(r)[k] == valmap(items).insert(
        item.name@,
        item.value,
    )[k] by {
        lemma_get_upsert(items, item, k);
        lemma_lookup_some_iff_has_key(items, k);
        lemma_lookup_some_iff_has_key(r, k);
    }
    assert(valmap(r) =~= valmap(items).insert(item.name@, item.value));
}

/// Entry `i` is the one filed under its id.
proof fn lemma_unique_lookup<T: Keyed>(items: Seq<T>, i: int)
    requires
        keys_unique(items),
        0 <= i < items.len(),
    ensures
        spec_lookup(items, items[i].key_view()) == Some(i),
{
    assert(is_first_key(items, items[i].key_view(), i));
    lemma_first_key_unique(items, items[i].key_view(), i);
}

/// Removing entry `i` of a table with unique ids removes exactly its id.
pub proof fn lemma_remove_entry<T: Keyed>(items: Seq<T>, i: int)
    requires
        keys_unique(items),
        0 <= i < items.len(),
    ensures
        keys_unique(items.remove(i)),
        keyset(items.remove(i)) == keyset(items).remove(items[i].key_view()),
        forall|k: Seq<char>| k != items[i].key_view() ==> #[trigger] spec_get(items.remove(i), k) == spec_get(items, k),
{
    let r = items.remove(i);
    let id = items[i].key_view();
    assert forall|a: int, b: int| 0 <= a < r.len() && 0 <= b < r.len() && a != b implies r[a].key_view()
        != r[b].key_view() by {
        let a2 = if a < i { a } else { a + 1 };
        let b2 = if b < i { b } else { b + 1 };
        assert(r[a] == items[a2] && r[b] == items[b2]);
    }
    assert forall|k: Seq<char>| keyset(r).contains(k) <==> keyset(items).remove(id).contains(k) by {
        if has_key(r, k) {
            let j = choose|j: int| 0 <= j < r.len() && r[j].key_view() == k;
            let j2 = if j < i { j } else { j + 1 };
            assert(r[j] == items[j2]);
            assert(j2 != i);
            assert(items[j2].key_view() != items[i].key_view());
        }
        if has_key(items, k) && k != id {
            let j = choose|j: int| 0 <= j < items.len() && items[j].key_view() == k;
            assert(j != i);
            let j2 = if j < i { j } else { j - 1 };
            assert(r[j2] == items[j]);
        }
    }
    assert(keyset(r) =~= keyset(items).remove(id));
    assert forall|k: Seq<char>| k != id implies #[trigger] spec_get(r, k) == spec_get(items, k) by {
        lemma_lookup_some_iff_has_key(items, k);
        lemma_lookup_some_iff_has_key(r, k);
        if has_key(items, k) {
            let j = choose|j: int| 0 <= j < items.len() && items[j].key_view() == k;
            lemma_unique_lookup(items, j);
            assert(j != i);
            let j2 = if j < i { j } else { j - 1 };
            assert(r[j2] == items[j]);
            lemma_unique_lookup(r, j2);
        } else {
            if has_key(r, k) {
                let j = choose|j: int| 0 <= j < r.len() && r[j].key_view() == k;
                let j2 = if j < i { j } else { j + 1 };
                assert(r[j] == items[j2]);
            }
        }
    }
}

/// Remove the entry filed under `id`, handing it back; `None` (and no
/// change) when there is none.
pub fn remove_key<T: Keyed>(items: &mut Vec<T>, id: &str) -> (r: Option<T>)
    requires
        keys_unique(old(items)@),
    ensures
        keys_unique(final(items)@),
        r == spec_get(old(items)@, id@),
        keyset(final(items)@) == keyset(old(items)@).remove(id@),
        forall|k: Seq<char>| k != id@ ==> #[trigger] spec_get(final(items)@, k) == spec_get(old(items)@, k),
{
    proof {
        lemma_lookup_some_iff_has_key(old(items)@, id@);
    }
    match find_key(items, id) {
        Some(i) => {
            proof {
                lemma_remove_entry(old(items)@, i as int);
            }
            Some(items.remove(i))
        },
        None => {
            proof {
                assert(keyset(old(items)@) =~= keyset(old(items)@).remove(id@));
            }
            None
        },
    }
}

/// Removing a named value takes its name out of the map view.
pub proof fn lemma_valmap_after_remove<T>(before: Seq<Named<T>>, after: Seq<Named<T>>, id: Seq<char>)
    requires
        keyset(after) == keyset(before).remove(id),
        forall|k: Seq<char>| k != id ==> #[trigger] spec_get(after, k) == spec_get(before, k),
    ensures
        valmap(after) == valmap(before).remove(id),
{
    assert forall|k: Seq<char>| #![trigger valmap(after).dom().contains(k)]
        valmap(after).dom().contains(k) <==> valmap(before).remove(id).dom().contains(k) by {
        assert(keyset(after).contains(k) == has_key(after, k));
        assert(keyset(before).contains(k) == has_key(before, k));
    }
    assert(valmap(after) =~= valmap(before).remove(id));
}

} // verus!
