//! Path identities: the chain of keys that leads from a root to a node.

use crate::digest::{digest_key, lemma_digest_push, lemma_digest_root, path_digest, DIGEST_SEED};
use std::rc::Rc;
use vstd::prelude::*;
use vstd::std_specs::cmp::PartialEqSpecImpl;

verus! {

/// The position of a node in the tree, as the keys on the way from the root
/// down to it. A path owns its last key and shares its parent with the other
/// paths that were extended from it. Two paths are equal when their keys are,
/// however they were built. Each path carries the digest of its keys, so
/// that none has to walk its chain to be found in a map.
#[derive(Hash)]
pub struct VPath {
    node: Rc<(String, Option<VPath>, u64)>,
}

impl View for VPath {
    type V = Seq<Seq<char>>;

    /// The keys of the path, root first.
    open spec fn view(&self) -> Seq<Seq<char>> {
        self.segments()
    }
}

/// `Rc::clone` on the node of a path: a second owner of the same allocation.
/// The contract claims that the new pointer stands for the value that the old
/// one stands for.
#[verifier::external_body]
fn share_node(node: &Rc<(String, Option<VPath>, u64)>) -> (shared: Rc<
    (String, Option<VPath>, u64),
>)
    ensures
        shared == *node,
{
    Rc::clone(node)
}

impl VPath {
    /// The number that the path carries is the digest of its keys.
    #[verifier::type_invariant]
    spec fn digest_kept(self) -> bool {
        self.node.2 == path_digest(self.segments())
    }

    /// The keys of the path, root first.
    pub closed spec fn segments(&self) -> Seq<Seq<char>>
        decreases self,
    {
        match self.node.1 {
            Some(parent) => parent.segments().push(self.node.0@),
            None => seq![self.node.0@],
        }
    }

    /// A path holds at least its own key.
    pub proof fn lemma_nonempty(&self)
        ensures
            self@.len() >= 1,
        decreases self,
    {
        match self.node.1 {
            Some(parent) => {
                parent.lemma_nonempty();
            },
            None => {},
        }
    }

    /// A path of one key, with no parent.
    pub fn new(key: &str) -> (path: VPath)
        ensures
            path@ == seq![key@],
    {
        proof {
            lemma_digest_root(key@);
        }
        let digest = digest_key(DIGEST_SEED, key);
        VPath { node: Rc::new((key.to_owned(), None, digest)) }
    }

    /// The path one level below this one, under `key`. The new path shares
    /// this one as its parent: no key of the chain is copied.
    pub fn extend(&self, key: &str) -> (path: VPath)
        ensures
            path@ == self@.push(key@),
    {
        proof {
            use_type_invariant(self);
            lemma_digest_push(self@, key@);
        }
        let digest = digest_key(self.node.2, key);
        VPath { node: Rc::new((key.to_owned(), Some(self.clone()), digest)) }
    }

    /// The digest of the path's keys.
    pub fn digest(&self) -> (digest: u64)
        ensures
            digest == path_digest(self@),
    {
        proof {
            use_type_invariant(self);
        }
        self.node.2
    }

    /// Whether the two paths hold the same keys in the same order.
    pub fn same_keys(&self, other: &VPath) -> (same: bool)
        ensures
            same == (self@ == other@),
        decreases self,
    {
        proof {
            use_type_invariant(self);
            use_type_invariant(other);
            self.lemma_nonempty();
            other.lemma_nonempty();
        }
        if self.node.2 != other.node.2 {
            return false;
        }
        if self.node.0 != other.node.0 {
            assert(self@.last() == self.node.0@);
            assert(other@.last() == other.node.0@);
            return false;
        }
        match (&self.node.1, &other.node.1) {
            (Some(p), Some(q)) => {
                proof {
                    assert(self@.drop_last() =~= p@);
                    assert(other@.drop_last() =~= q@);
                }
                p.same_keys(q)
            },
            (None, None) => {
                assert(self@ =~= other@);
                true
            },
            (Some(p), None) => {
                proof {
                    p.lemma_nonempty();
                }
                false
            },
            (None, Some(q)) => {
                proof {
                    q.lemma_nonempty();
                }
                false
            },
        }
    }
}

impl Clone for VPath {
    /// A second owner of the same chain.
    fn clone(&self) -> (path: VPath)
        ensures
            path == *self,
    {
        proof {
            use_type_invariant(self);
        }
        VPath { node: share_node(&self.node) }
    }
}

impl PartialEq for VPath {
    fn eq(&self, other: &VPath) -> (same: bool) {
        self.same_keys(other)
    }
}

impl PartialEqSpecImpl for VPath {
    open spec fn obeys_eq_spec() -> bool {
        true
    }

    open spec fn eq_spec(&self, other: &VPath) -> bool {
        self@ == other@
    }
}

impl Eq for VPath {}

} // verus!
