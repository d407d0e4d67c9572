//! Shared model of a name-keyed table.
//!
//! The registries of this crate (sprite sheets, animation definitions, sound
//! handles) are association sequences of `(name, value)` pairs with
//! overwrite-on-insert semantics.  `assoc_get` is the common lookup: the value
//! of the first pair whose key matches, scanning from the front.  The lemmas
//! here relate that lookup to the two ways a table changes: updating the first
//! matching pair in place, and appending a pair whose key is absent.

use vstd::prelude::*;

verus! {

/// First-match lookup in an association sequence.
pub open spec fn assoc_get<V>(s: Seq<(Seq<char>, V)>, k: Seq<char>) -> Option<V>
    decreases s.len(),
{
    if s.len() == 0 {
        None
    } else if s[0].0 == k {
        Some(s[0].1)
    } else {
        assoc_get(s.drop_first(), k)
    }
}

/// Dropping a scanned, non-matching prefix does not change the lookup.
pub proof fn lemma_assoc_get_skip<V>(s: Seq<(Seq<char>, V)>, i: int, k: Seq<char>)
    requires
        0 <= i <= s.len(),
        forall|j: int| 0 <= j < i ==> s[j].0 != k,
    ensures
        assoc_get(s, k) == assoc_get(s.skip(i), k),
    decreases i,
{
    if i > 0 {
        assert(s[0].0 != k);
        assert(assoc_get(s, k) == assoc_get(s.drop_first(), k));
        assert(forall|j: int| 0 <= j < i - 1 ==> s.drop_first()[j].0 == s[j + 1].0);
        lemma_assoc_get_skip(s.drop_first(), i - 1, k);
        assert(s.drop_first().skip(i - 1) =~= s.skip(i));
    } else {
        assert(s.skip(0) =~= s);
    }
}

/// The first pair whose key matches decides the lookup.
pub proof fn lemma_assoc_get_first_match<V>(s: Seq<(Seq<char>, V)>, i: int)
    requires
        0 <= i < s.len(),
        forall|j: int| 0 <= j < i ==> s[j].0 != s[i].0,
    ensures
        assoc_get(s, s[i].0) == Some(s[i].1),
    decreases i,
{
    if i > 0 {
        assert(s[0].0 != s[i].0);
        assert(forall|j: int| 0 <= j < i - 1 ==> s.drop_first()[j].0 == s[j + 1].0);
        lemma_assoc_get_first_match(s.drop_first(), i - 1);
        assert(s.drop_first()[i - 1] == s[i]);
    }
}

/// A key that no pair carries is not found.
pub proof fn lemma_assoc_get_absent<V>(s: Seq<(Seq<char>, V)>, k: Seq<char>)
    requires
        forall|j: int| 0 <= j < s.len() ==> s[j].0 != k,
    ensures
        assoc_get(s, k) is None,
    decreases s.len(),
{
    if s.len() > 0 {
        assert(s[0].0 != k);
        assert(forall|j: int| 0 <= j < s.len() - 1 ==> s.drop_first()[j].0 == s[j + 1].0);
        lemma_assoc_get_absent(s.drop_first(), k);
    }
}

/// Replacing the value of the first matching pair overwrites that key's
/// lookup and leaves every other key's lookup unchanged.
pub proof fn lemma_assoc_get_update<V>(s: Seq<(Seq<char>, V)>, i: int, v: V, k: Seq<char>)
    requires
        0 <= i < s.len(),
        forall|j: int| 0 <= j < i ==> s[j].0 != s[i].0,
    ensures
        assoc_get(s.update(i, (s[i].0, v)), k) == if k == s[i].0 {
            Some(v)
        } else {
            assoc_get(s, k)
        },
    decreases i,
{
    let t = s.update(i, (s[i].0, v));
    assert(t.len() == s.len());
    if i == 0 {
        assert(t[0] == (s[0].0, v));
        assert(t.drop_first() =~= s.drop_first());
    } else {
        assert(t[0] == s[0]);
        assert(s[0].0 != s[i].0);
        assert(forall|j: int| 0 <= j < i - 1 ==> s.drop_first()[j].0 == s[j + 1].0);
        assert(s.drop_first()[i - 1] == s[i]);
        lemma_assoc_get_update(s.drop_first(), i - 1, v, k);
        assert(t.drop_first() =~= s.drop_first().update(i - 1, (s[i].0, v)));
        if s[0].0 == k {
            assert(assoc_get(t, k) == Some(s[0].1));
            assert(assoc_get(s, k) == Some(s[0].1));
        }
    }
}

/// Appending a pair whose key is absent adds that key's lookup and leaves
/// every other key's lookup unchanged.
pub proof fn lemma_assoc_get_push<V>(s: Seq<(Seq<char>, V)>, p: (Seq<char>, V), k: Seq<char>)
    requires
        forall|j: int| 0 <= j < s.len() ==> s[j].0 != p.0,
    ensures
        assoc_get(s.push(p), k) == if k == p.0 {
            Some(p.1)
        } else {
            assoc_get(s, k)
        },
    decreases s.len(),
{
    let t = s.push(p);
    if s.len() == 0 {
        assert(t[0] == p);
        assert(t.drop_first() =~= Seq::<(Seq<char>, V)>::empty());
        assert(assoc_get(t.drop_first(), k) is None);
    } else {
        assert(t[0] == s[0]);
        assert(s[0].0 != p.0);
        assert(forall|j: int| 0 <= j < s.len() - 1 ==> s.drop_first()[j].0 == s[j + 1].0);
        lemma_assoc_get_push(s.drop_first(), p, k);
        assert(t.drop_first() =~= s.drop_first().push(p));
    }
}

} // verus!
