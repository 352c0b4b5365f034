//! The handle table: stable handles for the nodes of a tree that is walked
//! anew in every generation.

use crate::handle::{number_of, CreateError, Handle, HANDLE_FLOOR};
use crate::model::TableView;
use crate::path_map::PathMap;
use crate::vpath::VPath;
use std::collections::HashMap;
use vstd::prelude::*;

verus! {

broadcast use vstd::std_specs::hash::group_hash_axioms;

/// A table that gives each node of a tree a handle, and gives a node the
/// handle again that the node of the same path had in the generation before.
pub struct HandleTree<Value> {
    obj_by_handle: HashMap<u32, (Value, VPath)>,
    handle_by_vpath: PathMap,
    prev_handle_by_vpath: PathMap,
    next_handle_value: u32,
}

impl<Value> View for HandleTree<Value> {
    type V = TableView<Value>;

    /// The three maps and the counter, with each path taken as its keys.
    closed spec fn view(&self) -> TableView<Value> {
        TableView {
            objects: Map::new(
                |h: u32| self.obj_by_handle@.contains_key(h),
                |h: u32| (self.obj_by_handle@[h].0, self.obj_by_handle@[h].1@),
            ),
            current: self.handle_by_vpath@,
            previous: self.prev_handle_by_vpath@,
            counter: self.next_handle_value,
        }
    }
}

impl<Value> HandleTree<Value> {
    /// The table is sound: its maps are, and what it holds is a table.
    pub closed spec fn wf(&self) -> bool {
        &&& self.handle_by_vpath.wf()
        &&& self.prev_handle_by_vpath.wf()
        &&& self@.inv()
    }

    /// A sound table holds a table.
    pub proof fn lemma_wf_inv(&self)
        requires
            self.wf(),
        ensures
            self@.inv(),
    {
    }

    /// The table of the first generation, with nothing in it.
    pub fn new() -> (table: Self)
        ensures
            table.wf(),
            table@ == TableView::<Value>::empty(),
    {
        let table = HandleTree {
            obj_by_handle: HashMap::new(),
            handle_by_vpath: PathMap::new(),
            prev_handle_by_vpath: PathMap::new(),
            next_handle_value: HANDLE_FLOOR,
        };
        assert(table@.objects =~= Map::<u32, (Value, Seq<Seq<char>>)>::empty());
        table
    }

    /// The table of the next generation, made out of the old one. The values
    /// are dropped; the handle of each path is remembered for one generation.
    pub fn from_prev(old_table: HandleTree<Value>) -> (table: Self)
        requires
            old_table.wf(),
        ensures
            table.wf(),
            table@ == old_table@.advance(),
    {
        let mut old_table = old_table;
        let ghost before = old_table@;
        old_table.obj_by_handle.clear();
        old_table.prev_handle_by_vpath.clear();
        let table = HandleTree {
            obj_by_handle: old_table.obj_by_handle,
            handle_by_vpath: old_table.prev_handle_by_vpath,
            prev_handle_by_vpath: old_table.handle_by_vpath,
            next_handle_value: old_table.next_handle_value,
        };
        proof {
            assert(table@.objects =~= Map::<u32, (Value, Seq<Seq<char>>)>::empty());
            before.lemma_advance_inv();
        }
        table
    }

    /// Creates the node `key` under the node of `parent_handle`, or as a root
    /// where there is no parent, and returns its handle. The node gets the
    /// handle that its path had in the generation before, or else a new one.
    /// Where the parent does not belong to the current generation, or no new
    /// number is left, nothing is created and the table stays as it was.
    pub fn try_create(&mut self, parent_handle: Option<Handle>, key: &str, value: Value) -> (made:
        Result<Handle, CreateError>)
        requires
            old(self).wf(),
        ensures
            final(self).wf(),
            old(self)@.create_outcome(number_of(parent_handle), key@) == match made {
                Ok(handle) => Ok::<u32, CreateError>(handle@),
                Err(error) => Err::<u32, CreateError>(error),
            },
            made is Ok ==> final(self)@ == old(self)@.create(
                number_of(parent_handle),
                key@,
                value,
            ),
            made is Err ==> final(self)@ == old(self)@,
    {
        let ghost before = self@;
        let new_vpath = match parent_handle {
            Some(parent) => {
                let number = parent.get();
                match self.obj_by_handle.get(&number) {
                    Some(entry) => entry.1.extend(key),
                    None => {
                        return Err(CreateError::UnknownParent);
                    },
                }
            },
            None => VPath::new(key),
        };
        assert(new_vpath@ == before.path_for(number_of(parent_handle), key@));
        let new_number = match self.prev_handle_by_vpath.get(&new_vpath) {
            Some(number) => number,
            None => {
                if self.next_handle_value == u32::MAX {
                    return Err(CreateError::Exhausted);
                }
                self.next_handle_value += 1;
                self.next_handle_value
            },
        };
        assert(new_number == before.handle_for(new_vpath@));
        let replaced = self.handle_by_vpath.insert(new_vpath.clone(), new_number);
        if let Some(number) = replaced {
            self.obj_by_handle.remove(&number);
        }
        self.obj_by_handle.insert(new_number, (value, new_vpath));
        proof {
            before.lemma_create_inv(number_of(parent_handle), key@, value);
            assert(self@.objects =~= before.create(
                number_of(parent_handle),
                key@,
                value,
            ).objects);
        }
        Ok(Handle::new(new_number).unwrap())
    }

    /// Creates the node `key` under the node of `parent_handle`, or as a root
    /// where there is no parent, and returns its handle. The node gets the
    /// handle that its path had in the generation before, or else a new one.
    /// The parent must belong to the current generation.
    pub fn create(&mut self, parent_handle: Option<Handle>, key: &str, value: Value) -> (handle:
        Handle)
        requires
            old(self).wf(),
            old(self)@.can_create(number_of(parent_handle), key@),
        ensures
            final(self).wf(),
            final(self)@ == old(self)@.create(number_of(parent_handle), key@, value),
            handle@ == old(self)@.handle_for(old(self)@.path_for(number_of(parent_handle), key@)),
    {
        match self.try_create(parent_handle, key, value) {
            Ok(handle) => handle,
            Err(_) => vstd::pervasive::unreached(),
        }
    }

    /// The value that the handle stands for in the current generation.
    pub fn get(&self, handle: Handle) -> (found: Option<&Value>)
        ensures
            match found {
                Some(value) => self@.objects.contains_key(handle@) && *value
                    == self@.objects[handle@].0,
                None => !self@.objects.contains_key(handle@),
            },
    {
        let number = handle.get();
        match self.obj_by_handle.get(&number) {
            Some(entry) => Some(&entry.0),
            None => None,
        }
    }

    /// The value and the path that the handle stands for in the current
    /// generation.
    pub fn get_with_vpath(&self, handle: Handle) -> (found: Option<&(Value, VPath)>)
        ensures
            match found {
                Some(entry) => self@.objects.contains_key(handle@) && (entry.0, entry.1@)
                    == self@.objects[handle@],
                None => !self@.objects.contains_key(handle@),
            },
    {
        let number = handle.get();
        self.obj_by_handle.get(&number)
    }
}

} // verus!
