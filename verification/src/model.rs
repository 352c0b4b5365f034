//! The table as a mathematical value: three maps and a counter, with the
//! two operations that change them and what always holds of them.

use crate::handle::{CreateError, HANDLE_FLOOR};
use vstd::prelude::*;

verus! {

/// What a handle table holds. A path is the sequence of its keys, root first.
pub struct TableView<V> {
    /// For each handle of the current generation, its value and its path.
    pub objects: Map<u32, (V, Seq<Seq<char>>)>,
    /// For each path of the current generation, its handle.
    pub current: Map<Seq<Seq<char>>, u32>,
    /// For each path of the generation before, the handle it had there.
    pub previous: Map<Seq<Seq<char>>, u32>,
    /// The last number that was handed out as a new handle.
    pub counter: u32,
}

impl<V> TableView<V> {
    /// The table in which nothing was created yet.
    pub open spec fn empty() -> TableView<V> {
        TableView {
            objects: Map::empty(),
            current: Map::empty(),
            previous: Map::empty(),
            counter: HANDLE_FLOOR,
        }
    }

    /// What holds of every table, whatever was done to it: handles and paths
    /// of the current generation stand one to one, every handle lies above
    /// the floor and at or below the counter, and a handle that both
    /// generations know belongs to one path in both.
    pub open spec fn inv(self) -> bool {
        &&& self.counter >= HANDLE_FLOOR
        &&& forall|h: u32| #[trigger]
            self.objects.contains_key(h) ==> self.current.contains_key(self.objects[h].1)
                && self.current[self.objects[h].1] == h
        &&& forall|p: Seq<Seq<char>>| #[trigger]
            self.current.contains_key(p) ==> self.objects.contains_key(self.current[p])
                && self.objects[self.current[p]].1 == p && p.len() >= 1 && HANDLE_FLOOR
                < self.current[p] <= self.counter
        &&& forall|p: Seq<Seq<char>>| #[trigger]
            self.previous.contains_key(p) ==> HANDLE_FLOOR < self.previous[p] <= self.counter
        &&& forall|p: Seq<Seq<char>>, q: Seq<Seq<char>>|
            #![trigger self.previous[p], self.previous[q]]
            self.previous.contains_key(p) && self.previous.contains_key(q) && self.previous[p]
                == self.previous[q] ==> p == q
        &&& forall|p: Seq<Seq<char>>, q: Seq<Seq<char>>|
            #![trigger self.current[p], self.previous[q]]
            self.current.contains_key(p) && self.previous.contains_key(q) && self.current[p]
                == self.previous[q] ==> p == q
    }

    /// The path of a node with the given parent and key: the parent's path
    /// with the key behind it, or the key alone for a root.
    pub open spec fn path_for(self, parent: Option<u32>, key: Seq<char>) -> Seq<Seq<char>> {
        match parent {
            Some(h) => self.objects[h].1.push(key),
            None => seq![key],
        }
    }

    /// The handle that a node of the given path gets: the one that the
    /// generation before had for the path, or else the next new number.
    pub open spec fn handle_for(self, path: Seq<Seq<char>>) -> u32 {
        if self.previous.contains_key(path) {
            self.previous[path]
        } else {
            (self.counter + 1) as u32
        }
    }

    /// Whether a node can be created under the given parent: the parent, if
    /// there is one, belongs to the current generation, and a new number is
    /// left where the path needs one.
    pub open spec fn can_create(self, parent: Option<u32>, key: Seq<char>) -> bool {
        &&& parent matches Some(h) ==> self.objects.contains_key(h)
        &&& self.previous.contains_key(self.path_for(parent, key)) || self.counter < u32::MAX
    }

    /// What an attempt to create a node comes to: the number of the node's
    /// handle, or the reason why there is none.
    pub open spec fn create_outcome(self, parent: Option<u32>, key: Seq<char>) -> Result<
        u32,
        CreateError,
    > {
        if parent matches Some(h) && !self.objects.contains_key(h) {
            Err(CreateError::UnknownParent)
        } else if !self.can_create(parent, key) {
            Err(CreateError::Exhausted)
        } else {
            Ok(self.handle_for(self.path_for(parent, key)))
        }
    }

    /// The table after a node was created. An entry that the path had in
    /// this generation gives way to the new one.
    pub open spec fn create(self, parent: Option<u32>, key: Seq<char>, value: V) -> TableView<V> {
        let path = self.path_for(parent, key);
        let handle = self.handle_for(path);
        let kept = if self.current.contains_key(path) {
            self.objects.remove(self.current[path])
        } else {
            self.objects
        };
        TableView {
            objects: kept.insert(handle, (value, path)),
            current: self.current.insert(path, handle),
            previous: self.previous,
            counter: if self.previous.contains_key(path) {
                self.counter
            } else {
                handle
            },
        }
    }

    /// The table at the start of the next generation: nothing is current,
    /// and what was current is remembered.
    pub open spec fn advance(self) -> TableView<V> {
        TableView {
            objects: Map::empty(),
            current: Map::empty(),
            previous: self.current,
            counter: self.counter,
        }
    }

    /// The empty table is a table.
    pub proof fn lemma_empty_inv()
        ensures
            Self::empty().inv(),
    {
    }

    /// Creating a node keeps a table a table.
    pub proof fn lemma_create_inv(self, parent: Option<u32>, key: Seq<char>, value: V)
        requires
            self.inv(),
            self.can_create(parent, key),
        ensures
            self.create(parent, key, value).inv(),
    {
        let path = self.path_for(parent, key);
        let handle = self.handle_for(path);
        let next = self.create(parent, key, value);
        assert(path.len() >= 1);
        assert forall|h: u32| #[trigger] next.objects.contains_key(h) implies next.current.contains_key(
            next.objects[h].1,
        ) && next.current[next.objects[h].1] == h by {
            if h != handle {
                assert(self.objects.contains_key(h));
                let p = self.objects[h].1;
                assert(self.current.contains_key(p));
                if p == path {
                    assert(self.current[path] == h);
                }
            }
        }
        assert forall|p: Seq<Seq<char>>| #[trigger] next.current.contains_key(p) implies {
            &&& next.objects.contains_key(next.current[p])
            &&& next.objects[next.current[p]].1 == p
            &&& p.len() >= 1
            &&& HANDLE_FLOOR < next.current[p] <= next.counter
        } by {
            if p != path {
                assert(self.current.contains_key(p));
                let h = self.current[p];
                assert(self.objects.contains_key(h));
                if self.previous.contains_key(path) {
                    assert(h != handle);
                }
                if self.current.contains_key(path) {
                    assert(self.objects[self.current[path]].1 == path);
                    assert(h != self.current[path]);
                }
            }
        }
        assert forall|p: Seq<Seq<char>>, q: Seq<Seq<char>>|
            #![trigger next.current[p], next.previous[q]]
            next.current.contains_key(p) && next.previous.contains_key(q) && next.current[p]
                == next.previous[q] implies p == q by {
            if p != path {
                assert(self.current.contains_key(p));
                assert(self.current[p] == self.previous[q]);
            }
        }
    }

    /// The start of a new generation keeps a table a table.
    pub proof fn lemma_advance_inv(self)
        requires
            self.inv(),
        ensures
            self.advance().inv(),
    {
        let next = self.advance();
        assert forall|p: Seq<Seq<char>>, q: Seq<Seq<char>>|
            #![trigger next.previous[p], next.previous[q]]
            next.previous.contains_key(p) && next.previous.contains_key(q) && next.previous[p]
                == next.previous[q] implies p == q by {
            assert(self.objects[self.current[p]].1 == p);
            assert(self.objects[self.current[q]].1 == q);
        }
    }
}

} // verus!
