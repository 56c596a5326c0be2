//! The task records of a tracer, found by pid.

use std::collections::HashMap;
use vstd::prelude::*;
use crate::task::{Pid, Task, TraceError};

verus! {

broadcast use vstd::std_specs::hash::group_hash_axioms;

/// The task records by pid: each pid has at most one.
pub struct TracedTasks {
    tasks: HashMap<Pid, Task>,
}

impl View for TracedTasks {
    type V = Map<Pid, Task>;

    closed spec fn view(&self) -> Map<Pid, Task> {
        self.tasks@
    }
}

/// `HashMap::get_mut` of std: a mutable reference to the value that the key
/// maps to, or nothing where the map does not hold the key. What is written
/// through the reference becomes the value for that key; nothing else in the
/// map changes.
#[verifier::external_body]
fn map_get_mut<'a>(map: &'a mut HashMap<Pid, Task>, pid: Pid) -> (r: Option<&'a mut Task>)
    ensures
        match r {
            Some(task) => old(map)@.contains_key(pid) && *task == old(map)@[pid] && final(map)@
                == old(map)@.insert(pid, *final(task)),
            None => !old(map)@.contains_key(pid) && final(map)@ == old(map)@,
        },
{
    map.get_mut(&pid)
}

impl TracedTasks {
    /// No task records.
    pub fn new() -> (tasks: TracedTasks)
        ensures
            tasks@ == Map::<Pid, Task>::empty(),
    {
        TracedTasks { tasks: HashMap::new() }
    }

    /// Files the record under the pid of its task, in place of any record
    /// that was there.
    pub fn add(&mut self, task: Task) -> (r: Result<(), TraceError>)
        ensures
            r is Ok,
            final(self)@ == old(self)@.insert(task.pid, task),
    {
        self.tasks.insert(task.pid, task);
        Ok(())
    }

    /// Takes the record for the pid away, if there is one.
    pub fn remove(&mut self, pid: Pid) -> (r: Result<(), TraceError>)
        ensures
            r is Ok,
            final(self)@ == old(self)@.remove(pid),
    {
        self.tasks.remove(&pid);
        Ok(())
    }

    /// Whether there is a record for the pid.
    pub fn contains(&self, pid: Pid) -> (b: bool)
        ensures
            b == self@.contains_key(pid),
    {
        self.tasks.contains_key(&pid)
    }

    /// The record for the pid.
    pub fn get(&self, pid: Pid) -> (task: &Task)
        requires
            self@.contains_key(pid),
        ensures
            *task == self@[pid],
    {
        match self.tasks.get(&pid) {
            Some(task) => task,
            None => vstd::pervasive::unreached(),
        }
    }

    /// The record for the pid, to change it in place.
    pub fn get_mut(&mut self, pid: Pid) -> (task: &mut Task)
        requires
            old(self)@.contains_key(pid),
        ensures
            *task == old(self)@[pid],
            final(self)@ == old(self)@.insert(pid, *final(task)),
    {
        match map_get_mut(&mut self.tasks, pid) {
            Some(task) => task,
            None => vstd::pervasive::unreached(),
        }
    }
}

} // verus!
