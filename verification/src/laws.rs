//! What holds of a table over whole runs of operations: which handle a path
//! gets back, and which handles are gone for good.

use crate::handle::HANDLE_FLOOR;
use crate::model::TableView;
use vstd::prelude::*;

verus! {

/// One operation on a table.
pub enum Op<V> {
    /// A node is created under `parent`, or as a root.
    Create { parent: Option<u32>, key: Seq<char>, value: V },
    /// The next generation begins.
    Advance,
}

/// Whether every operation of `ops` creates a node: the run stays within one
/// generation.
pub open spec fn within_generation<V>(ops: Seq<Op<V>>) -> bool {
    forall|i: int| 0 <= i < ops.len() ==> #[trigger] ops[i] is Create
}

impl<V> TableView<V> {
    /// Whether the operation is allowed on this table.
    pub open spec fn admits_op(self, op: Op<V>) -> bool {
        match op {
            Op::Create { parent, key, value } => self.can_create(parent, key),
            Op::Advance => true,
        }
    }

    /// The table after the operation.
    pub open spec fn apply(self, op: Op<V>) -> TableView<V> {
        match op {
            Op::Create { parent, key, value } => self.create(parent, key, value),
            Op::Advance => self.advance(),
        }
    }

    /// The table after the operations, done in their order.
    pub open spec fn run(self, ops: Seq<Op<V>>) -> TableView<V>
        decreases ops.len(),
    {
        if ops.len() == 0 {
            self
        } else {
            self.run(ops.drop_last()).apply(ops.last())
        }
    }

    /// Whether each of the operations is allowed where its turn comes.
    pub open spec fn admits(self, ops: Seq<Op<V>>) -> bool
        decreases ops.len(),
    {
        if ops.len() == 0 {
            true
        } else {
            self.admits(ops.drop_last()) && self.run(ops.drop_last()).admits_op(ops.last())
        }
    }

    /// Whether the number was handed out as a handle at some time.
    pub open spec fn issued(self, h: u32) -> bool {
        HANDLE_FLOOR < h <= self.counter
    }

    /// Whether some path has the handle, in this generation or the one before.
    pub open spec fn live(self, h: u32) -> bool {
        self.current.contains_value(h) || self.previous.contains_value(h)
    }

    /// Whether the handle was handed out and no path has it any more.
    pub open spec fn retired(self, h: u32) -> bool {
        self.issued(h) && !self.live(h)
    }

    /// Every run of allowed operations keeps a table a table.
    pub proof fn lemma_run_inv(self, ops: Seq<Op<V>>)
        requires
            self.inv(),
            self.admits(ops),
        ensures
            self.run(ops).inv(),
        decreases ops.len(),
    {
        if ops.len() > 0 {
            self.lemma_run_inv(ops.drop_last());
            let mid = self.run(ops.drop_last());
            match ops.last() {
                Op::Create { parent, key, value } => {
                    mid.lemma_create_inv(parent, key, value);
                },
                Op::Advance => {
                    mid.lemma_advance_inv();
                },
            }
        }
    }

    /// Within one generation what is remembered of the generation before
    /// stays as it is.
    pub proof fn lemma_generation_keeps_previous(self, ops: Seq<Op<V>>)
        requires
            within_generation(ops),
        ensures
            self.run(ops).previous == self.previous,
        decreases ops.len(),
    {
        if ops.len() > 0 {
            assert(ops.last() is Create);
            assert(within_generation(ops.drop_last()));
            self.lemma_generation_keeps_previous(ops.drop_last());
        }
    }

    /// The counter never falls: a number that was handed out once stays
    /// handed out.
    pub proof fn law_counter_never_falls(self, ops: Seq<Op<V>>)
        requires
            self.admits(ops),
        ensures
            self.run(ops).counter >= self.counter,
            forall|h: u32| self.issued(h) ==> #[trigger] self.run(ops).issued(h),
        decreases ops.len(),
    {
        if ops.len() > 0 {
            self.law_counter_never_falls(ops.drop_last());
        }
    }

    /// Two different paths of one generation have different handles.
    pub proof fn law_distinct_paths_distinct_handles(self, p: Seq<Seq<char>>, q: Seq<Seq<char>>)
        requires
            self.inv(),
            self.current.contains_key(p),
            self.current.contains_key(q),
            p != q,
        ensures
            self.current[p] != self.current[q],
    {
        assert(self.objects[self.current[p]].1 == p);
        assert(self.objects[self.current[q]].1 == q);
    }

    /// A path that had a handle in one generation gets the same handle when
    /// it is created in the next, whatever else was created there before it.
    pub proof fn law_reuse(
        self,
        path: Seq<Seq<char>>,
        ops: Seq<Op<V>>,
        parent: Option<u32>,
        key: Seq<char>,
        value: V,
    )
        requires
            self.inv(),
            self.current.contains_key(path),
            within_generation(ops),
            self.advance().admits(ops),
            self.advance().run(ops).can_create(parent, key),
            self.advance().run(ops).path_for(parent, key) == path,
        ensures
            self.advance().run(ops).create_outcome(parent, key) == Ok::<
                u32,
                crate::handle::CreateError,
            >(self.current[path]),
            self.advance().run(ops).create(parent, key, value).current[path] == self.current[path],
            self.advance().run(ops).create(parent, key, value).counter == self.advance().run(
                ops,
            ).counter,
    {
        self.advance().lemma_generation_keeps_previous(ops);
    }

    /// A handle of the generation before, whose path was not created again,
    /// stands for nothing.
    pub proof fn law_stale_handle_absent(self, p: Seq<Seq<char>>)
        requires
            self.inv(),
            self.previous.contains_key(p),
            !self.current.contains_key(p),
        ensures
            !self.objects.contains_key(self.previous[p]),
    {
        let h = self.previous[p];
        if self.objects.contains_key(h) {
            let q = self.objects[h].1;
            assert(self.current.contains_key(q) && self.current[q] == h);
            assert(self.current[q] == self.previous[p]);
        }
    }

    /// A handle that the generation before had for a path is given to no
    /// other path.
    pub proof fn law_handle_keeps_its_path(
        self,
        p: Seq<Seq<char>>,
        parent: Option<u32>,
        key: Seq<char>,
    )
        requires
            self.inv(),
            self.previous.contains_key(p),
            self.can_create(parent, key),
            self.handle_for(self.path_for(parent, key)) == self.previous[p],
        ensures
            self.path_for(parent, key) == p,
    {
        let q = self.path_for(parent, key);
        if self.previous.contains_key(q) {
            assert(self.previous[q] == self.previous[p]);
        }
    }

    /// A handle that no path of a generation has is retired when the next
    /// generation begins.
    pub proof fn law_unseen_handle_retires(self, h: u32)
        requires
            self.issued(h),
            !self.current.contains_value(h),
        ensures
            self.advance().retired(h),
    {
        let next = self.advance();
        if next.current.contains_value(h) {
            let p = choose|p: Seq<Seq<char>>| #[trigger]
                next.current.dom().contains(p) && next.current[p] == h;
            assert(false);
        }
    }

    /// No node gets a retired handle.
    pub proof fn law_retired_handle_not_given(self, h: u32, parent: Option<u32>, key: Seq<char>)
        requires
            self.inv(),
            self.retired(h),
            self.can_create(parent, key),
        ensures
            self.handle_for(self.path_for(parent, key)) != h,
    {
        let path = self.path_for(parent, key);
        if self.previous.contains_key(path) {
            assert(self.previous.dom().contains(path));
            if self.previous[path] == h {
                assert(self.previous.contains_value(h));
            }
        }
    }

    /// A retired handle stays retired, and stands for nothing, whatever is
    /// done to the table afterwards.
    pub proof fn law_retired_forever(self, h: u32, ops: Seq<Op<V>>)
        requires
            self.inv(),
            self.retired(h),
            self.admits(ops),
        ensures
            self.run(ops).retired(h),
            !self.run(ops).objects.contains_key(h),
        decreases ops.len(),
    {
        if ops.len() == 0 {
            self.lemma_retired_absent(h);
        } else {
            let mid = self.run(ops.drop_last());
            let end = self.run(ops);
            self.law_retired_forever(h, ops.drop_last());
            self.lemma_run_inv(ops.drop_last());
            self.lemma_run_inv(ops);
            match ops.last() {
                Op::Create { parent, key, value } => {
                    let path = mid.path_for(parent, key);
                    mid.law_retired_handle_not_given(h, parent, key);
                    if end.current.contains_value(h) {
                        let p = choose|p: Seq<Seq<char>>| #[trigger]
                            end.current.dom().contains(p) && end.current[p] == h;
                        assert(p != path);
                        assert(mid.current.dom().contains(p) && mid.current[p] == h);
                        assert(mid.current.contains_value(h));
                    }
                },
                Op::Advance => {
                    if end.current.contains_value(h) {
                        let p = choose|p: Seq<Seq<char>>| #[trigger]
                            end.current.dom().contains(p) && end.current[p] == h;
                        assert(false);
                    }
                },
            }
            end.lemma_retired_absent(h);
        }
    }

    /// A retired handle stands for nothing.
    pub proof fn lemma_retired_absent(self, h: u32)
        requires
            self.inv(),
            self.retired(h),
        ensures
            !self.objects.contains_key(h),
    {
        if self.objects.contains_key(h) {
            let p = self.objects[h].1;
            assert(self.current.dom().contains(p) && self.current[p] == h);
        }
    }

    /// A handle reaches one generation back and no further: where its path
    /// is left out of the generation that follows, it stands for nothing
    /// there, and from the generation after that on it is retired, also
    /// where the path comes back.
    pub proof fn law_two_generation_window(
        self,
        path: Seq<Seq<char>>,
        ops1: Seq<Op<V>>,
        ops2: Seq<Op<V>>,
    )
        requires
            self.inv(),
            self.current.contains_key(path),
            within_generation(ops1),
            self.advance().admits(ops1),
            !self.advance().run(ops1).current.contains_key(path),
            self.advance().run(ops1).advance().admits(ops2),
        ensures
            !self.advance().run(ops1).objects.contains_key(self.current[path]),
            self.advance().run(ops1).advance().run(ops2).retired(self.current[path]),
            !self.advance().run(ops1).advance().run(ops2).objects.contains_key(self.current[path]),
    {
        let h = self.current[path];
        let start = self.advance();
        let mid = start.run(ops1);
        self.lemma_advance_inv();
        start.lemma_run_inv(ops1);
        start.lemma_generation_keeps_previous(ops1);
        assert(mid.previous == self.current);
        mid.law_stale_handle_absent(path);
        if mid.current.contains_value(h) {
            let q = choose|q: Seq<Seq<char>>| #[trigger]
                mid.current.dom().contains(q) && mid.current[q] == h;
            assert(mid.current[q] == mid.previous[path]);
        }
        mid.law_unseen_handle_retires(h);
        mid.lemma_advance_inv();
        mid.advance().law_retired_forever(h, ops2);
    }

    /// Once two generations have begun since a table was filled, none of its
    /// handles stands for anything.
    pub proof fn law_second_generation_starts_empty(self, h: u32)
        ensures
            !self.advance().objects.contains_key(h),
            !self.advance().advance().objects.contains_key(h),
            self.advance().advance().previous == Map::<Seq<Seq<char>>, u32>::empty(),
    {
    }

    /// A node created under a parent is no root: its path is longer than
    /// one key.
    pub proof fn law_child_is_no_root(self, parent: u32, key: Seq<char>)
        requires
            self.inv(),
            self.objects.contains_key(parent),
        ensures
            self.path_for(Some(parent), key).len() >= 2,
            self.path_for(Some(parent), key).drop_last() == self.objects[parent].1,
    {
        let p = self.objects[parent].1;
        assert(self.current.contains_key(p));
        assert(p.push(key).drop_last() =~= p);
    }
}

} // verus!
