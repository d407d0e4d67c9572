//! The sprite-sheet registry: a process-wide table from logical sheet name to
//! the pair of host asset handles (texture and grid layout) loaded for it.
//!
//! The host's asset references are opaque; the registry stores them as plain
//! handle identifiers.  Entities never hold a handle directly, only a name.

use vstd::prelude::*;
use crate::table::{assoc_get, lemma_assoc_get_absent, lemma_assoc_get_first_match,
    lemma_assoc_get_push, lemma_assoc_get_update};

verus! {

/// Identifiers of a loaded texture and of its row/column grid layout, as
/// handed out by the host's asset loader.  Immutable once created.
#[derive(Debug, Clone, Copy, PartialEq, Eq, Structural)]
pub struct SpriteSheetHandle {
    pub texture: u64,
    pub layout: u64,
}

/// Table from logical sheet name to its handle pair.
#[derive(Debug)]
pub struct SpriteSheetResource {
    entries: Vec<(String, SpriteSheetHandle)>,
}

impl SpriteSheetResource {
    /// The registry as an association sequence of `(name, handle)` pairs.
    pub closed spec fn pairs(&self) -> Seq<(Seq<char>, SpriteSheetHandle)> {
        self.entries@.map_values(|p: (String, SpriteSheetHandle)| (p.0@, p.1))
    }

    /// The handle pair registered under a name, if any.
    pub open spec fn spec_get(&self, k: Seq<char>) -> Option<SpriteSheetHandle> {
        assoc_get(self.pairs(), k)
    }

    /// An empty registry: no name is mapped.
    pub fn new() -> (r: Self)
        ensures
            forall|k: Seq<char>| r.spec_get(k) is None,
            r.pairs().len() == 0,
    {
        let r = SpriteSheetResource { entries: Vec::new() };
        proof {
            assert(r.pairs() =~= Seq::<(Seq<char>, SpriteSheetHandle)>::empty());
        }
        r
    }

    /// Insert a new SpriteSheetHandle: stores the mapping, overwriting any
    /// earlier handle pair registered under the same name.
    pub fn insert(&mut self, name: String, handle: SpriteSheetHandle)
        ensures
            forall|k: Seq<char>| final(self).spec_get(k) == if k == name@ {
                Some(handle)
            } else {
                old(self).spec_get(k)
            },
    {
        let n = self.entries.len();
        let mut i: usize = 0;
        while i < n
            invariant
                i <= n,
                self == old(self),
                n == self.entries.len(),
                forall|j: int| 0 <= j < i ==> self.pairs()[j].0 != name@,
            decreases n - i,
        {
            if self.entries[i].0 == name {
                assert(self.pairs()[i as int].0 == name@);
                self.entries[i] = (name, handle);
                proof {
                    assert(self.pairs() =~= old(self).pairs().update(
                        i as int,
                        (old(self).pairs()[i as int].0, handle),
                    ));
                    assert forall|k: Seq<char>|
                        self.spec_get(k) == if k == old(self).pairs()[i as int].0 {
                            Some(handle)
                        } else {
                            old(self).spec_get(k)
                        } by {
                        lemma_assoc_get_update(old(self).pairs(), i as int, handle, k);
                    }
                }
                return;
            }
            i = i + 1;
        }
        self.entries.push((name, handle));
        proof {
            assert(self.pairs() =~= old(self).pairs().push((name@, handle)));
            assert forall|k: Seq<char>|
                self.spec_get(k) == if k == name@ {
                    Some(handle)
                } else {
                    old(self).spec_get(k)
                } by {
                lemma_assoc_get_push(old(self).pairs(), (name@, handle), k);
            }
        }
    }

    /// Get a SpriteSheetHandle: a pure lookup that never mutates and never
    /// panics on a miss.
    pub fn get(&self, name: &str) -> (r: Option<SpriteSheetHandle>)
        ensures
            r == self.spec_get(name@),
    {
        let key: String = name.to_owned();
        let n = self.entries.len();
        let mut i: usize = 0;
        while i < n
            invariant
                i <= n,
                n == self.entries.len(),
                key@ == name@,
                forall|j: int| 0 <= j < i ==> self.pairs()[j].0 != name@,
            decreases n - i,
        {
            if self.entries[i].0 == key {
                assert(self.pairs()[i as int].0 == name@);
                proof {
                    lemma_assoc_get_first_match(self.pairs(), i as int);
                }
                return Some(self.entries[i].1);
            }
            i = i + 1;
        }
        proof {
            lemma_assoc_get_absent(self.pairs(), name@);
        }
        None
    }
}

} // verus!
