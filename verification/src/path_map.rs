//! A finite map from path identities to handle numbers.

use crate::digest::path_digest;
use crate::vpath::VPath;
use std::collections::HashMap;
use vstd::prelude::*;

verus! {

broadcast use vstd::std_specs::hash::group_hash_axioms;

/// The paths of one digest with their numbers, in no order that matters. No
/// path is held twice.
struct Bucket {
    entries: Vec<(VPath, u32)>,
}

impl View for Bucket {
    type V = Map<Seq<Seq<char>>, u32>;

    /// The map, with each path taken as its keys from the root down.
    closed spec fn view(&self) -> Map<Seq<Seq<char>>, u32> {
        Map::new(
            |p: Seq<Seq<char>>| self.holds(p),
            |p: Seq<Seq<char>>| self.entries@[self.position(p)].1,
        )
    }
}

impl Bucket {
    /// Whether some entry is keyed by `p`.
    spec fn holds(&self, p: Seq<Seq<char>>) -> bool {
        exists|i: int| 0 <= i < self.entries@.len() && (#[trigger] self.entries@[i]).0@ == p
    }

    /// The place of an entry keyed by `p`, where there is one.
    spec fn position(&self, p: Seq<Seq<char>>) -> int {
        choose|i: int| 0 <= i < self.entries@.len() && (#[trigger] self.entries@[i]).0@ == p
    }

    /// No two entries are keyed by the same path.
    spec fn wf(&self) -> bool {
        forall|i: int, j: int|
            0 <= i < j < self.entries@.len() ==> (#[trigger] self.entries@[i]).0@ != (
            #[trigger] self.entries@[j]).0@
    }

    /// The entry at place `i` is what the map holds for its path.
    proof fn lemma_entry(&self, i: int)
        requires
            self.wf(),
            0 <= i < self.entries@.len(),
        ensures
            self@.contains_key(self.entries@[i].0@),
            self@[self.entries@[i].0@] == self.entries@[i].1,
    {
        let p = self.entries@[i].0@;
        assert(self.holds(p));
        let k = self.position(p);
        assert(k == i) by {
            if k < i {
                assert(self.entries@[k].0@ != self.entries@[i].0@);
            } else if i < k {
                assert(self.entries@[i].0@ != self.entries@[k].0@);
            }
        }
    }

    /// The bucket without entries.
    fn new() -> (bucket: Bucket)
        ensures
            bucket.wf(),
            bucket@ == Map::<Seq<Seq<char>>, u32>::empty(),
    {
        let bucket = Bucket { entries: Vec::new() };
        assert(bucket@ =~= Map::<Seq<Seq<char>>, u32>::empty());
        bucket
    }

    /// The number held for a path of the same keys, if there is one.
    fn get(&self, path: &VPath) -> (found: Option<u32>)
        requires
            self.wf(),
        ensures
            found == (if self@.contains_key(path@) {
                Some(self@[path@])
            } else {
                None
            }),
    {
        let mut i: usize = 0;
        while i < self.entries.len()
            invariant
                self.wf(),
                i <= self.entries@.len(),
                forall|k: int| 0 <= k < i ==> (#[trigger] self.entries@[k]).0@ != path@,
            decreases self.entries@.len() - i,
        {
            if self.entries[i].0.same_keys(path) {
                proof {
                    self.lemma_entry(i as int);
                }
                return Some(self.entries[i].1);
            }
            i += 1;
        }
        None
    }

    /// Sets the number held for `path`, and returns the one it replaces.
    fn insert(&mut self, path: VPath, number: u32) -> (replaced: Option<u32>)
        requires
            old(self).wf(),
        ensures
            final(self).wf(),
            final(self)@ == old(self)@.insert(path@, number),
            replaced == (if old(self)@.contains_key(path@) {
                Some(old(self)@[path@])
            } else {
                None
            }),
    {
        let ghost before = *self;
        let mut i: usize = 0;
        while i < self.entries.len()
            invariant
                *self == before,
                before == *old(self),
                self.wf(),
                i <= self.entries@.len(),
                forall|k: int| 0 <= k < i ==> (#[trigger] self.entries@[k]).0@ != path@,
            decreases self.entries@.len() - i,
        {
            if self.entries[i].0.same_keys(&path) {
                let replaced = self.entries[i].1;
                proof {
                    before.lemma_entry(i as int);
                }
                self.entries[i] = (path, number);
                proof {
                    assert(self.wf());
                    assert forall|p: Seq<Seq<char>>| #[trigger] self.holds(p) == before.holds(p) by {
                        if self.holds(p) {
                            let k = self.position(p);
                            assert(before.entries@[k].0@ == p);
                        }
                        if before.holds(p) {
                            let k = before.position(p);
                            assert(self.entries@[k].0@ == p);
                        }
                    }
                    assert forall|p: Seq<Seq<char>>| self.holds(p) implies #[trigger] self@[p]
                        == before@.insert(path@, number)[p] by {
                        let k = self.position(p);
                        self.lemma_entry(k);
                        if k != i as int {
                            before.lemma_entry(k);
                        }
                    }
                    assert(self@ =~= before@.insert(path@, number));
                }
                return Some(replaced);
            }
            i += 1;
        }
        self.entries.push((path, number));
        proof {
            let n = before.entries@.len() as int;
            assert(self.wf());
            assert(self.entries@[n].0@ == path@);
            assert forall|p: Seq<Seq<char>>| #[trigger]
                self.holds(p) == (before.holds(p) || p == path@) by {
                if self.holds(p) {
                    let k = self.position(p);
                    if k < n {
                        assert(before.entries@[k].0@ == p);
                    }
                }
                if before.holds(p) {
                    let k = before.position(p);
                    assert(self.entries@[k].0@ == p);
                }
            }
            assert forall|p: Seq<Seq<char>>| self.holds(p) implies #[trigger] self@[p]
                == before@.insert(path@, number)[p] by {
                let k = self.position(p);
                self.lemma_entry(k);
                if k < n {
                    assert(before.entries@[k] == self.entries@[k]);
                    before.lemma_entry(k);
                }
            }
            assert(self@ =~= before@.insert(path@, number));
        }
        None
    }
}

/// A map from paths to handle numbers, keyed by what a path holds: paths of
/// the same keys are one key. Paths are sorted into buckets by their digest,
/// so that a lookup compares a path only with those that share its digest.
pub struct PathMap {
    buckets: HashMap<u64, Bucket>,
}

impl View for PathMap {
    type V = Map<Seq<Seq<char>>, u32>;

    /// The map, with each path taken as its keys from the root down.
    closed spec fn view(&self) -> Map<Seq<Seq<char>>, u32> {
        Map::new(
            |p: Seq<Seq<char>>|
                self.buckets@.contains_key(path_digest(p)) && self.buckets@[path_digest(
                    p,
                )]@.contains_key(p),
            |p: Seq<Seq<char>>| self.buckets@[path_digest(p)]@[p],
        )
    }
}

impl PathMap {
    /// Every bucket is sound and holds only paths of its own digest.
    pub closed spec fn wf(&self) -> bool {
        forall|d: u64| #[trigger]
            self.buckets@.contains_key(d) ==> self.buckets@[d].wf() && forall|p: Seq<Seq<char>>| #[trigger]
                self.buckets@[d]@.contains_key(p) ==> path_digest(p) == d
    }

    /// The map without entries.
    pub fn new() -> (map: PathMap)
        ensures
            map.wf(),
            map@ == Map::<Seq<Seq<char>>, u32>::empty(),
    {
        let map = PathMap { buckets: HashMap::new() };
        assert(map@ =~= Map::<Seq<Seq<char>>, u32>::empty());
        map
    }

    /// Drops every entry and keeps the storage.
    pub fn clear(&mut self)
        ensures
            final(self).wf(),
            final(self)@ == Map::<Seq<Seq<char>>, u32>::empty(),
    {
        self.buckets.clear();
        assert(self@ =~= Map::<Seq<Seq<char>>, u32>::empty());
    }

    /// The number held for a path of the same keys, if there is one.
    pub fn get(&self, path: &VPath) -> (found: Option<u32>)
        requires
            self.wf(),
        ensures
            found == (if self@.contains_key(path@) {
                Some(self@[path@])
            } else {
                None
            }),
    {
        let digest = path.digest();
        match self.buckets.get(&digest) {
            Some(bucket) => bucket.get(path),
            None => None,
        }
    }

    /// Sets the number held for `path`, and returns the one it replaces.
    pub fn insert(&mut self, path: VPath, number: u32) -> (replaced: Option<u32>)
        requires
            old(self).wf(),
        ensures
            final(self).wf(),
            final(self)@ == old(self)@.insert(path@, number),
            replaced == (if old(self)@.contains_key(path@) {
                Some(old(self)@[path@])
            } else {
                None
            }),
    {
        let ghost before = *self;
        let ghost keys = path@;
        let digest = path.digest();
        let mut bucket = match self.buckets.remove(&digest) {
            Some(bucket) => bucket,
            None => Bucket::new(),
        };
        let replaced = bucket.insert(path, number);
        self.buckets.insert(digest, bucket);
        proof {
            assert forall|d: u64| #[trigger] self.buckets@.contains_key(d) implies self.buckets@[d].wf()
                && forall|p: Seq<Seq<char>>| #[trigger]
                self.buckets@[d]@.contains_key(p) ==> path_digest(p) == d by {
                if d != digest {
                    assert(before.buckets@.contains_key(d));
                }
            }
            assert(self@ =~= before@.insert(keys, number));
        }
        replaced
    }
}

} // verus!
