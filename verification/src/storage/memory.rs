//! In-memory storage. Not durable across restarts.

use vstd::prelude::*;
use super::{Storage, StorageError};
use crate::byteseq::bytes_eq;

verus! {

/// In-memory implementation of `Storage`: a list of distinct keys with
/// their values.
pub struct InMemoryStorage {
    entries: Vec<(Vec<u8>, Vec<u8>)>,
    model: Ghost<Map<Seq<u8>, Seq<u8>>>,
}

impl InMemoryStorage {
    /// The entries have distinct keys and hold exactly the model: each
    /// entry is a binding of the model, and each key of the model has an
    /// entry.
    pub closed spec fn entries_agree(self) -> bool {
        let e = self.entries@;
        let m = self.model@;
        &&& forall|i: int, j: int|
            0 <= i < e.len() && 0 <= j < e.len() && i != j ==> #[trigger] e[i].0@ != #[trigger] e[j].0@
        &&& forall|i: int|
            0 <= i < e.len() ==> m.contains_key(#[trigger] e[i].0@) && m[e[i].0@] == e[i].1@
        &&& forall|k: Seq<u8>|
            m.contains_key(k) ==> exists|i: int| 0 <= i < e.len() && #[trigger] e[i].0@ == k
    }

    /// Creates a new, empty in-memory store.
    pub fn new() -> (s: Self)
        ensures
            s.well_formed(),
            s.models_contents(),
            s.infallible(),
            s.contents() == Map::<Seq<u8>, Seq<u8>>::empty(),
    {
        InMemoryStorage { entries: Vec::new(), model: Ghost(Map::empty()) }
    }

    /// Position of `key` among the entries, if it is there.
    fn position(&self, key: &[u8]) -> (r: Option<usize>)
        requires
            self.entries_agree(),
        ensures
            match r {
                Some(i) => i < self.entries@.len() && self.entries@[i as int].0@ == key@,
                None => !self.model@.contains_key(key@),
            },
    {
        let mut i: usize = 0;
        while i < self.entries.len()
            invariant
                self.entries_agree(),
                i <= self.entries@.len(),
                forall|j: int| 0 <= j < i ==> #[trigger] self.entries@[j].0@ != key@,
            decreases self.entries@.len() - i,
        {
            if bytes_eq(self.entries[i].0.as_slice(), key) {
                return Some(i);
            }
            i = i + 1;
        }
        None
    }
}

impl Storage for InMemoryStorage {
    open spec fn models_contents(&self) -> bool {
        true
    }

    open spec fn infallible(&self) -> bool {
        true
    }

    closed spec fn contents(&self) -> Map<Seq<u8>, Seq<u8>> {
        self.model@
    }

    closed spec fn well_formed(&self) -> bool {
        self.entries_agree()
    }

    fn get(&self, key: &[u8]) -> (r: Result<Option<Vec<u8>>, StorageError>) {
        match self.position(key) {
            Some(i) => Ok(Some(self.entries[i].1.clone())),
            None => Ok(None),
        }
    }

    fn put(&mut self, key: &[u8], value: &[u8]) -> (r: Result<(), StorageError>) {
        let ghost old_model = self.model@;
        let ghost old_entries = self.entries@;
        let ghost mut at: int = 0;
        let new_value = vstd::slice::slice_to_vec(value);
        match self.position(key) {
            Some(i) => {
                let k = self.entries[i].0.clone();
                self.entries.set(i, (k, new_value));
                proof {
                    at = i as int;
                }
            },
            None => {
                let k = vstd::slice::slice_to_vec(key);
                self.entries.push((k, new_value));
                proof {
                    at = old_entries.len() as int;
                }
            },
        }
        self.model = Ghost(old_model.insert(key@, value@));
        proof {
            let e = self.entries@;
            let m = self.model@;
            assert(e[at].0@ == key@);
            assert forall|k: Seq<u8>| m.contains_key(k) implies exists|i: int|
                0 <= i < e.len() && #[trigger] e[i].0@ == k by {
                if k == key@ {
                    assert(e[at].0@ == k);
                } else {
                    let j: int = choose|j: int| 0 <= j < old_entries.len() && #[trigger] old_entries[j].0@ == k;
                    assert(e[j].0@ == k);
                }
            }
        }
        Ok(())
    }

    fn delete(&mut self, key: &[u8]) -> (r: Result<(), StorageError>) {
        let ghost old_model = self.model@;
        let ghost old_entries = self.entries@;
        match self.position(key) {
            Some(i) => {
                self.entries.remove(i);
                self.model = Ghost(old_model.remove(key@));
                proof {
                    let e = self.entries@;
                    let m = self.model@;
                    assert forall|j: int| 0 <= j < e.len() implies m.contains_key(
                        #[trigger] e[j].0@,
                    ) && m[e[j].0@] == e[j].1@ by {
                        if j < i {
                            assert(e[j] == old_entries[j]);
                        } else {
                            assert(e[j] == old_entries[j + 1]);
                        }
                    }
                    assert forall|k: Seq<u8>| m.contains_key(k) implies exists|j: int|
                        0 <= j < e.len() && #[trigger] e[j].0@ == k by {
                        let j: int = choose|j: int| 0 <= j < old_entries.len() && old_entries[j].0@ == k;
                        if j < i {
                            assert(e[j] == old_entries[j]);
                        } else {
                            assert(e[j - 1] == old_entries[j]);
                        }
                    }
                }
            },
            None => {
                assert(old_model.remove(key@) =~= old_model);
            },
        }
        Ok(())
    }
}

} // verus!
