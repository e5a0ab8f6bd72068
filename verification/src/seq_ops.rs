//! Sequence edits shared by the edit commands: guarded removal, clamped
//! insertion, guarded replacement and guarded pop.
use vstd::prelude::*;

verus! {

/// `s` without element `i`, or `s` unchanged when `i` is out of range.
pub open spec fn remove_at<T>(s: Seq<T>, i: int) -> Seq<T> {
    if 0 <= i < s.len() {
        s.remove(i)
    } else {
        s
    }
}

/// `s` with `v` inserted at `i`, or appended when `i` is past the end.
pub open spec fn insert_clamped<T>(s: Seq<T>, i: int, v: T) -> Seq<T> {
    if i < s.len() {
        s.insert(i, v)
    } else {
        s.push(v)
    }
}

/// `s` with element `i` replaced by `v`, or `s` unchanged when `i` is out of range.
pub open spec fn replace_at<T>(s: Seq<T>, i: int, v: T) -> Seq<T> {
    if 0 <= i < s.len() {
        s.update(i, v)
    } else {
        s
    }
}

/// `s` without its last element, or `s` unchanged when empty.
pub open spec fn pop_last<T>(s: Seq<T>) -> Seq<T> {
    if s.len() > 0 {
        s.drop_last()
    } else {
        s
    }
}

/// Removing an element and inserting it back at the same index is the identity.
pub proof fn lemma_remove_insert<T>(s: Seq<T>, i: int)
    requires
        0 <= i < s.len(),
    ensures
        insert_clamped(remove_at(s, i), i, s[i]) == s,
{
    let r = s.remove(i);
    if i < r.len() {
        assert(r.insert(i, s[i]) =~= s);
    } else {
        assert(r.push(s[i]) =~= s);
    }
}

/// Pushing then popping is the identity.
pub proof fn lemma_push_pop<T>(s: Seq<T>, v: T)
    ensures
        pop_last(s.push(v)) == s,
{
    assert(s.push(v).drop_last() =~= s);
}

/// Replacing an element by itself is the identity.
pub proof fn lemma_replace_same<T>(s: Seq<T>, i: int)
    ensures
        replace_at(s, i, s[i]) == s,
{
    if 0 <= i < s.len() {
        assert(s.update(i, s[i]) =~= s);
    }
}

/// Replacing the same index twice keeps only the second value.
pub proof fn lemma_replace_twice<T>(s: Seq<T>, i: int, a: T, b: T)
    ensures
        replace_at(replace_at(s, i, a), i, b) == replace_at(s, i, b),
{
    if 0 <= i < s.len() {
        assert(s.update(i, a).update(i, b) =~= s.update(i, b));
    }
}

} // verus!
