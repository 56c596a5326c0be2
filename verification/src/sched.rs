//! The tracer's scheduler: the collections that hold every traced task, the
//! delivery of kernel stops to them, and the loop that drives stopped tasks
//! forward until all of them run again or are gone.

use vstd::prelude::*;
use crate::sched_laws::{
    lemma_armed, lemma_delivered, lemma_index_unique, lemma_place, lemma_place_front,
    lemma_take_next, lemma_turn, lemma_without,
};
use crate::sched_model::{has_pid, lemma_turn_uses_fuel, SchedView};
use crate::task::{Action, Pid, RunTask, Stop, StopEvent, Task, TraceError};

verus! {

/// The tracer's scheduler.
pub struct SchedWait {
    runnable: Vec<Task>,
    blocked: Vec<Task>,
    terminal: Vec<Task>,
    outbox: Vec<Action>,
    exit_code: i32,
}

impl View for SchedWait {
    type V = SchedView;

    closed spec fn view(&self) -> SchedView {
        SchedView {
            runnable: self.runnable@,
            blocked: self.blocked@,
            terminal: self.terminal@,
            outbox: self.outbox@,
            exit_code: self.exit_code,
        }
    }
}

/// The place of the first task with the pid.
fn find_pid(tasks: &Vec<Task>, pid: Pid) -> (r: Option<usize>)
    ensures
        match r {
            Some(i) => i < tasks.len() && tasks@[i as int].pid == pid,
            None => !has_pid(tasks@, pid),
        },
{
    let mut i: usize = 0;
    while i < tasks.len()
        invariant
            i <= tasks.len(),
            forall|j: int| 0 <= j < i ==> (#[trigger] tasks@[j]).pid != pid,
        decreases tasks.len() - i,
    {
        if tasks[i].pid == pid {
            return Some(i);
        }
        i += 1;
    }
    None
}

impl SchedWait {
    /// A scheduler without tasks.
    pub fn new() -> (sched: SchedWait)
        ensures
            sched@ == SchedView::empty(),
            sched@.wf(),
    {
        SchedWait {
            runnable: Vec::new(),
            blocked: Vec::new(),
            terminal: Vec::new(),
            outbox: Vec::new(),
            exit_code: 0,
        }
    }

    /// Whether no task is left.
    pub fn is_empty(&self) -> (b: bool)
        ensures
            b <==> self@.count() == 0,
    {
        self.runnable.len() == 0 && self.blocked.len() == 0 && self.terminal.len() == 0
    }

    /// Whether a task record stands for the pid.
    pub fn tracks(&self, pid: Pid) -> (b: bool)
        ensures
            b == self@.tracks(pid),
    {
        find_pid(&self.runnable, pid).is_some() || find_pid(&self.blocked, pid).is_some()
            || find_pid(&self.terminal, pid).is_some()
    }

    /// The exit code of the task that was taken last; 0 before any.
    pub fn exit_code(&self) -> (code: i32)
        ensures
            code == self@.exit_code,
    {
        self.exit_code
    }

    /// Adds a task at the back of the collection that its state asks for: a
    /// task that runs is waited for, a stopped one is driven in its turn.
    pub fn add(&mut self, task: Task)
        requires
            old(self)@.wf(),
            task.wf(),
            !old(self)@.tracks(task.pid),
        ensures
            final(self)@ == old(self)@.place(task),
            final(self)@.wf(),
    {
        proof {
            lemma_place(self@, task);
        }
        if task.state.terminal() {
            self.terminal.push(task);
        } else if task.state.waiting() {
            self.blocked.push(task);
        } else {
            self.runnable.push(task);
        }
    }

    /// Adds a task as the one to take next.
    pub fn add_and_schedule(&mut self, task: Task)
        requires
            old(self)@.wf(),
            task.wf(),
            !old(self)@.tracks(task.pid),
        ensures
            final(self)@ == old(self)@.place_front(task),
            final(self)@.wf(),
    {
        proof {
            lemma_place_front(self@, task);
        }
        if task.state.terminal() {
            self.terminal.insert(0, task);
        } else {
            self.runnable.insert(0, task);
        }
    }

    /// Takes the record for the pid out, if there is one.
    pub fn remove(&mut self, pid: Pid) -> (r: Option<Task>)
        requires
            old(self)@.wf(),
        ensures
            (final(self)@, r) == old(self)@.without(pid),
            final(self)@.wf(),
            r is Some <==> old(self)@.tracks(pid),
            !final(self)@.tracks(pid),
    {
        proof {
            lemma_without(self@, pid);
        }
        match find_pid(&self.runnable, pid) {
            Some(i) => {
                proof {
                    lemma_index_unique(self.runnable@, pid, i as int);
                }
                return Some(self.runnable.remove(i));
            },
            None => {},
        }
        match find_pid(&self.blocked, pid) {
            Some(i) => {
                proof {
                    lemma_index_unique(self.blocked@, pid, i as int);
                }
                return Some(self.blocked.remove(i));
            },
            None => {},
        }
        match find_pid(&self.terminal, pid) {
            Some(i) => {
                proof {
                    lemma_index_unique(self.terminal@, pid, i as int);
                }
                Some(self.terminal.remove(i))
            },
            None => None,
        }
    }

    /// Takes the task to drive next: the first runnable one, or else the
    /// first that is gone. None is left to drive when every task runs.
    pub fn next(&mut self) -> (r: Option<Task>)
        requires
            old(self)@.wf(),
        ensures
            match old(self)@.take_next() {
                Some((task, rest)) => r == Some(task) && final(self)@ == rest,
                None => r is None && final(self)@ == old(self)@,
            },
            final(self)@.wf(),
            r matches Some(task) ==> task.wf() && !final(self)@.tracks(task.pid),
    {
        proof {
            if self@.take_next() is Some {
                lemma_take_next(self@);
            }
        }
        if self.runnable.len() > 0 {
            Some(self.runnable.remove(0))
        } else if self.terminal.len() > 0 {
            Some(self.terminal.remove(0))
        } else {
            None
        }
    }

    /// The record for the pid, if there is one.
    pub fn get(&self, pid: Pid) -> (r: Option<Task>)
        requires
            self@.wf(),
        ensures
            r == self@.without(pid).1,
            r is Some <==> self@.tracks(pid),
            r matches Some(task) ==> task.pid == pid && task.wf(),
    {
        proof {
            lemma_without(self@, pid);
        }
        match find_pid(&self.runnable, pid) {
            Some(i) => {
                proof {
                    lemma_index_unique(self.runnable@, pid, i as int);
                }
                return Some(self.runnable[i]);
            },
            None => {},
        }
        match find_pid(&self.blocked, pid) {
            Some(i) => {
                proof {
                    lemma_index_unique(self.blocked@, pid, i as int);
                }
                return Some(self.blocked[i]);
            },
            None => {},
        }
        match find_pid(&self.terminal, pid) {
            Some(i) => {
                proof {
                    lemma_index_unique(self.terminal@, pid, i as int);
                }
                Some(self.terminal[i])
            },
            None => None,
        }
    }

    /// Hands one stop that the kernel delivered to the task it belongs to.
    pub fn deliver(&mut self, stop: Stop) -> (r: Result<(), TraceError>)
        requires
            old(self)@.wf(),
        ensures
            (final(self)@, r) == old(self)@.delivered(stop),
            final(self)@.wf(),
            r is Err ==> final(self)@ == old(self)@,
    {
        proof {
            lemma_delivered(self@, stop);
            lemma_without(self@, stop.pid);
        }
        match self.get(stop.pid) {
            Some(task) => {
                match task.observe(stop.event) {
                    Ok(next) => {
                        let _ = self.remove(stop.pid);
                        self.add(next);
                        Ok(())
                    },
                    Err(e) => Err(e),
                }
            },
            None => {
                match stop.event {
                    StopEvent::Exited { .. } => Ok(()),
                    StopEvent::Signaled { .. } => Ok(()),
                    _ => Err(TraceError::UnknownPid(stop.pid)),
                }
            },
        }
    }

    /// Records that the injected code of the process has armed its
    /// contract. Says whether there is a record for the pid.
    pub fn arm_contract(&mut self, pid: Pid) -> (found: bool)
        requires
            old(self)@.wf(),
        ensures
            found == old(self)@.tracks(pid),
            final(self)@ == old(self)@.armed(pid),
            final(self)@.wf(),
            final(self)@.count() == old(self)@.count(),
            forall|other: Pid| final(self)@.tracks(other) == old(self)@.tracks(other),
    {
        proof {
            lemma_armed(self@, pid);
        }
        match find_pid(&self.runnable, pid) {
            Some(i) => {
                proof {
                    lemma_index_unique(self.runnable@, pid, i as int);
                }
                let mut task = self.runnable[i];
                task.arm_contract();
                self.runnable.set(i, task);
                return true;
            },
            None => {},
        }
        match find_pid(&self.blocked, pid) {
            Some(i) => {
                proof {
                    lemma_index_unique(self.blocked@, pid, i as int);
                }
                let mut task = self.blocked[i];
                task.arm_contract();
                self.blocked.set(i, task);
                return true;
            },
            None => {},
        }
        match find_pid(&self.terminal, pid) {
            Some(i) => {
                proof {
                    lemma_index_unique(self.terminal@, pid, i as int);
                }
                let mut task = self.terminal[i];
                task.arm_contract();
                self.terminal.set(i, task);
                true
            },
            None => false,
        }
    }

    /// Adds a request to the outbox, unless there is nothing to ask.
    fn post(&mut self, action: Action)
        ensures
            final(self)@ == old(self)@.posted(action),
    {
        match action {
            Action::Nothing => {},
            _ => {
                self.outbox.push(action);
            },
        }
    }

    /// Takes the requests that wait in the outbox, oldest first.
    pub fn take_actions(&mut self) -> (actions: Vec<Action>)
        ensures
            actions@ == old(self)@.outbox,
            final(self)@ == (SchedView { outbox: Seq::empty(), ..old(self)@ }),
    {
        let mut actions: Vec<Action> = Vec::new();
        std::mem::swap(&mut actions, &mut self.outbox);
        actions
    }
}

/// Drives every task that is ready until each task that is left runs, and
/// returns the exit code of the task that went last. The scheduler
/// remembers that code from call to call: a call that finds no task gone
/// returns the code of the task that went last before it, and 0 where none
/// ever went. The requests that the turns made wait in the outbox.
pub fn run_tracer_main(sched: &mut SchedWait) -> (r: Result<i32, TraceError>)
    requires
        old(sched)@.wf(),
    ensures
        (final(sched)@, r) == old(sched)@.drain(),
        final(sched)@.wf(),
        r is Ok ==> final(sched)@.take_next() is None,
{
    let ghost start = sched@;
    loop
        invariant
            start == old(sched)@,
            sched@.wf(),
            sched@.drain() == start.drain(),
        decreases sched@.fuel(),
    {
        let ghost before = sched@;
        let task = match sched.next() {
            Some(task) => task,
            None => {
                return Ok(sched.exit_code());
            },
        };
        proof {
            lemma_turn_uses_fuel(before);
            lemma_turn(sched@, task);
        }
        sched.post(task.action());
        match task.run() {
            RunTask::Exited(code) => {
                sched.exit_code = code;
            },
            RunTask::Runnable(task1) => {
                sched.add(task1);
            },
            RunTask::Forked(parent, child) => {
                if sched.tracks(child.pid) || child.pid == parent.pid {
                    sched.add_and_schedule(parent);
                    return Err(TraceError::DuplicatePid(child.pid));
                }
                sched.add(child);
                proof {
                    let (_, rest) = before.take_next()->0;
                    lemma_place(rest.posted(task.request()), child);
                }
                sched.add_and_schedule(parent);
            },
        }
    }
}

} // verus!
