//! The scheduler as a mathematical value: its collections, what each
//! operation makes of them, and the tracer's loop as a function.

use vstd::prelude::*;
use crate::task::{Action, Pid, RunTask, Stop, Task, TraceError};

verus! {

/// Whether some task of `s` has the pid.
pub open spec fn has_pid(s: Seq<Task>, pid: Pid) -> bool {
    exists|i: int| 0 <= i < s.len() && (#[trigger] s[i]).pid == pid
}

/// The place in `s` of a task with the pid.
pub open spec fn index_of(s: Seq<Task>, pid: Pid) -> int {
    choose|i: int| 0 <= i < s.len() && (#[trigger] s[i]).pid == pid
}

/// No two tasks of `s` share a pid.
pub open spec fn distinct(s: Seq<Task>) -> bool {
    forall|i: int, j: int| 0 <= i < j < s.len() ==> (#[trigger] s[i]).pid != (#[trigger] s[j]).pid
}

/// No task of `a` shares a pid with a task of `b`.
pub open spec fn disjoint(a: Seq<Task>, b: Seq<Task>) -> bool {
    forall|i: int, j: int|
        0 <= i < a.len() && 0 <= j < b.len() ==> (#[trigger] a[i]).pid != (#[trigger] b[j]).pid
}

/// How many more times a queued task can be driven before it leaves the
/// queues: a task that waits for the kernel once, any other task twice.
pub open spec fn weight(task: Task) -> nat {
    if task.state.is_waiting() {
        1
    } else {
        2
    }
}

/// The sum of the weights of the tasks of `s`.
pub open spec fn weight_sum(s: Seq<Task>) -> nat
    decreases s.len(),
{
    if s.len() == 0 {
        0
    } else {
        weight(s[0]) + weight_sum(s.drop_first())
    }
}

/// The scheduler as a mathematical value.
pub struct SchedView {
    /// Tasks to drive next, in order.
    pub runnable: Seq<Task>,
    /// Tasks that run; the tracer waits for their next stop.
    pub blocked: Seq<Task>,
    /// Tasks that are gone and whose exit code nobody has taken yet.
    pub terminal: Seq<Task>,
    /// Requests to the kernel that nobody has taken yet, oldest first.
    pub outbox: Seq<Action>,
    /// The exit code of the task that was taken last; 0 before any.
    pub exit_code: i32,
}

impl SchedView {
    pub open spec fn empty() -> SchedView {
        SchedView {
            runnable: Seq::empty(),
            blocked: Seq::empty(),
            terminal: Seq::empty(),
            outbox: Seq::empty(),
            exit_code: 0,
        }
    }

    /// Whether a task record stands for the pid.
    pub open spec fn tracks(self, pid: Pid) -> bool {
        has_pid(self.runnable, pid) || has_pid(self.blocked, pid) || has_pid(self.terminal, pid)
    }

    /// The number of task records.
    pub open spec fn count(self) -> nat {
        self.runnable.len() + self.blocked.len() + self.terminal.len()
    }

    /// Every pid is tracked by at most one record, in one collection, and
    /// each collection holds the tasks that belong there: a terminal task is
    /// in no other than the terminal one, and the tracer waits only for
    /// tasks that run.
    pub open spec fn wf(self) -> bool {
        &&& distinct(self.runnable)
        &&& distinct(self.blocked)
        &&& distinct(self.terminal)
        &&& disjoint(self.runnable, self.blocked)
        &&& disjoint(self.runnable, self.terminal)
        &&& disjoint(self.blocked, self.terminal)
        &&& forall|i: int|
            0 <= i < self.runnable.len() ==> (#[trigger] self.runnable[i]).wf()
                && !self.runnable[i].state.is_terminal()
        &&& forall|i: int|
            0 <= i < self.blocked.len() ==> (#[trigger] self.blocked[i]).wf()
                && self.blocked[i].state.is_waiting()
        &&& forall|i: int|
            0 <= i < self.terminal.len() ==> (#[trigger] self.terminal[i]).wf()
                && self.terminal[i].state.is_terminal()
    }

    /// The scheduler after `task` joined at the back of the collection that
    /// its state asks for.
    pub open spec fn place(self, task: Task) -> SchedView {
        if task.state.is_terminal() {
            SchedView { terminal: self.terminal.push(task), ..self }
        } else if task.state.is_waiting() {
            SchedView { blocked: self.blocked.push(task), ..self }
        } else {
            SchedView { runnable: self.runnable.push(task), ..self }
        }
    }

    /// The scheduler after `task` joined as the one to take next.
    pub open spec fn place_front(self, task: Task) -> SchedView {
        if task.state.is_terminal() {
            SchedView { terminal: self.terminal.insert(0, task), ..self }
        } else {
            SchedView { runnable: self.runnable.insert(0, task), ..self }
        }
    }

    /// The task to drive next with the scheduler that is left: the first
    /// runnable task, or else the first terminal one.
    pub open spec fn take_next(self) -> Option<(Task, SchedView)> {
        if self.runnable.len() > 0 {
            Some((self.runnable[0], SchedView { runnable: self.runnable.remove(0), ..self }))
        } else if self.terminal.len() > 0 {
            Some((self.terminal[0], SchedView { terminal: self.terminal.remove(0), ..self }))
        } else {
            None
        }
    }

    /// The scheduler without a record for the pid, and the record taken out.
    pub open spec fn without(self, pid: Pid) -> (SchedView, Option<Task>) {
        if has_pid(self.runnable, pid) {
            let i = index_of(self.runnable, pid);
            (SchedView { runnable: self.runnable.remove(i), ..self }, Some(self.runnable[i]))
        } else if has_pid(self.blocked, pid) {
            let i = index_of(self.blocked, pid);
            (SchedView { blocked: self.blocked.remove(i), ..self }, Some(self.blocked[i]))
        } else if has_pid(self.terminal, pid) {
            let i = index_of(self.terminal, pid);
            (SchedView { terminal: self.terminal.remove(i), ..self }, Some(self.terminal[i]))
        } else {
            (self, None)
        }
    }

    /// The scheduler after the kernel delivered `stop`, and whether the stop
    /// was in order. A task that takes the stop moves to the back of the
    /// collection that its new state asks for. A stop that its task cannot
    /// take, or that belongs to no task, changes nothing; the end of a
    /// process that no task stands for any more is in order.
    pub open spec fn delivered(self, stop: Stop) -> (SchedView, Result<(), TraceError>) {
        match self.without(stop.pid) {
            (rest, Some(task)) => match task.observed(stop.event) {
                Ok(next) => (rest.place(next), Ok(())),
                Err(e) => (self, Err(e)),
            },
            (_, None) => if stop.event is Exited || stop.event is Signaled {
                (self, Ok(()))
            } else {
                (self, Err(TraceError::UnknownPid(stop.pid)))
            },
        }
    }

    /// The scheduler after the tracer learnt that the injected code of the
    /// process has armed its contract: the record for the pid says so, and
    /// stays where it is.
    pub open spec fn armed(self, pid: Pid) -> SchedView {
        if has_pid(self.runnable, pid) {
            let i = index_of(self.runnable, pid);
            SchedView {
                runnable: self.runnable.update(
                    i,
                    Task { contract_armed: true, ..self.runnable[i] },
                ),
                ..self
            }
        } else if has_pid(self.blocked, pid) {
            let i = index_of(self.blocked, pid);
            SchedView {
                blocked: self.blocked.update(i, Task { contract_armed: true, ..self.blocked[i] }),
                ..self
            }
        } else if has_pid(self.terminal, pid) {
            let i = index_of(self.terminal, pid);
            SchedView {
                terminal: self.terminal.update(
                    i,
                    Task { contract_armed: true, ..self.terminal[i] },
                ),
                ..self
            }
        } else {
            self
        }
    }

    /// The scheduler with one more request in the outbox, unless there is
    /// nothing to ask.
    pub open spec fn posted(self, action: Action) -> SchedView {
        if action is Nothing {
            self
        } else {
            SchedView { outbox: self.outbox.push(action), ..self }
        }
    }

    /// The scheduler after `result` of driving a task was settled. An exit
    /// code replaces the one remembered. A runnable task joins again. Of a
    /// fork the child joins fresh and the parent is taken next; where the
    /// child's pid is already taken, only the parent joins and the fork is
    /// an error.
    pub open spec fn settled(self, result: RunTask) -> (SchedView, Option<TraceError>) {
        match result {
            RunTask::Exited(code) => (SchedView { exit_code: code, ..self }, None),
            RunTask::Runnable(task) => (self.place(task), None),
            RunTask::Forked(parent, child) => if self.tracks(child.pid) || child.pid
                == parent.pid {
                (self.place_front(parent), Some(TraceError::DuplicatePid(child.pid)))
            } else {
                (self.place(child).place_front(parent), None)
            },
        }
    }

    /// One turn of the tracer's loop on the task `task` that was taken from
    /// the scheduler, which left `self`.
    pub open spec fn turn(self, task: Task) -> (SchedView, Option<TraceError>) {
        self.posted(task.request()).settled(task.driven())
    }

    /// What bounds the number of turns that the tracer's loop can still take.
    pub open spec fn fuel(self) -> nat {
        weight_sum(self.runnable) + weight_sum(self.terminal)
    }

    /// The scheduler after the tracer's loop has run until no task is left
    /// to drive, or until a turn failed, and the result of the loop: the
    /// exit code remembered at the end, or the error of the failed turn.
    pub open spec fn drain(self) -> (SchedView, Result<i32, TraceError>)
        decreases self.fuel(),
    {
        match self.take_next() {
            None => (self, Ok(self.exit_code)),
            Some((task, rest)) => {
                let (next, failure) = rest.turn(task);
                match failure {
                    Some(e) => (next, Err(e)),
                    None => {
                        proof {
                            lemma_turn_uses_fuel(self);
                        }
                        next.drain()
                    },
                }
            },
        }
    }
}

/// Putting a task in front adds its weight.
pub proof fn lemma_weight_insert_front(s: Seq<Task>, task: Task)
    ensures
        weight_sum(s.insert(0, task)) == weight(task) + weight_sum(s),
{
    assert(s.insert(0, task).drop_first() =~= s);
}

/// Taking the first task away takes its weight away.
pub proof fn lemma_weight_remove_front(s: Seq<Task>)
    requires
        s.len() > 0,
    ensures
        weight_sum(s) == weight(s[0]) + weight_sum(s.remove(0)),
{
    assert(s.remove(0) =~= s.drop_first());
}

/// Every turn of the loop uses fuel.
pub proof fn lemma_turn_uses_fuel(v: SchedView)
    requires
        v.take_next() is Some,
    ensures
        ({
            let (task, rest) = v.take_next()->0;
            rest.turn(task).0.fuel() < v.fuel()
        }),
{
    let (task, rest) = v.take_next()->0;
    if v.runnable.len() > 0 {
        lemma_weight_remove_front(v.runnable);
    } else {
        lemma_weight_remove_front(v.terminal);
    }
    let posted = rest.posted(task.request());
    assert(posted.fuel() == rest.fuel());
    match task.driven() {
        RunTask::Exited(code) => {},
        RunTask::Runnable(t) => {
            assert(t.state.is_waiting());
        },
        RunTask::Forked(parent, child) => {
            assert(parent.state is Running);
            assert(child.state is Created);
            lemma_weight_insert_front(posted.runnable, parent);
            lemma_weight_insert_front(posted.place(child).runnable, parent);
        },
    }
}

} // verus!
