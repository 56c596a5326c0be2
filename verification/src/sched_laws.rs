//! What holds of the scheduler whatever happens: every pid has one task
//! record at most, each operation keeps the collections in order, and a
//! fork yields exactly one new task.

use vstd::prelude::*;
use crate::sched_model::{
    disjoint, distinct, has_pid, index_of, lemma_turn_uses_fuel, SchedView,
};
use crate::task::{Pid, RunTask, Stop, StopEvent, Task, TraceError};

verus! {

/// Which pids a sequence holds after a task joined at its back.
pub proof fn lemma_push_pids(s: Seq<Task>, task: Task)
    ensures
        forall|pid: Pid| #[trigger] has_pid(s.push(task), pid) <==> has_pid(s, pid) || pid == task.pid,
        distinct(s) && !has_pid(s, task.pid) ==> distinct(s.push(task)),
{
    let t = s.push(task);
    assert forall|pid: Pid| #[trigger] has_pid(t, pid) <==> has_pid(s, pid) || pid == task.pid by {
        if has_pid(s, pid) {
            let i = index_of(s, pid);
            assert(t[i].pid == pid);
        }
        if pid == task.pid {
            assert(t[s.len() as int].pid == pid);
        }
        if has_pid(t, pid) {
            let i = index_of(t, pid);
            if i < s.len() {
                assert(s[i].pid == pid);
            }
        }
    }
    if distinct(s) && !has_pid(s, task.pid) {
        assert forall|i: int, j: int| 0 <= i < j < t.len() implies (#[trigger] t[i]).pid != (
        #[trigger] t[j]).pid by {
            assert(t[i] == s[i]);
            if j < s.len() {
                assert(t[j] == s[j]);
            }
        }
    }
}

/// Which pids a sequence holds after a task joined at its front.
pub proof fn lemma_insert_front_pids(s: Seq<Task>, task: Task)
    ensures
        forall|pid: Pid| #[trigger]
            has_pid(s.insert(0, task), pid) <==> has_pid(s, pid) || pid == task.pid,
        distinct(s) && !has_pid(s, task.pid) ==> distinct(s.insert(0, task)),
{
    let t = s.insert(0, task);
    assert forall|pid: Pid| #[trigger] has_pid(t, pid) <==> has_pid(s, pid) || pid == task.pid by {
        if has_pid(s, pid) {
            let i = index_of(s, pid);
            assert(t[i + 1].pid == pid);
        }
        if pid == task.pid {
            assert(t[0].pid == pid);
        }
        if has_pid(t, pid) {
            let i = index_of(t, pid);
            if i > 0 {
                assert(s[i - 1].pid == pid);
            }
        }
    }
    if distinct(s) && !has_pid(s, task.pid) {
        assert forall|i: int, j: int| 0 <= i < j < t.len() implies (#[trigger] t[i]).pid != (
        #[trigger] t[j]).pid by {
            assert(t[j] == s[j - 1]);
            if i > 0 {
                assert(t[i] == s[i - 1]);
            }
        }
    }
}

/// Which pids a sequence of distinct tasks holds after one of them left.
pub proof fn lemma_remove_pids(s: Seq<Task>, at: int)
    requires
        distinct(s),
        0 <= at < s.len(),
    ensures
        forall|pid: Pid| #[trigger]
            has_pid(s.remove(at), pid) <==> has_pid(s, pid) && pid != s[at].pid,
        distinct(s.remove(at)),
        forall|i: int| 0 <= i < s.remove(at).len() ==> #[trigger] s.remove(at)[i] == s[if i < at {
            i
        } else {
            i + 1
        }],
{
    let t = s.remove(at);
    assert forall|pid: Pid| #[trigger] has_pid(t, pid) <==> has_pid(s, pid) && pid != s[at].pid by {
        if has_pid(s, pid) && pid != s[at].pid {
            let i = index_of(s, pid);
            if i < at {
                assert(t[i].pid == pid);
            } else {
                assert(t[i - 1].pid == pid);
            }
        }
        if has_pid(t, pid) {
            let i = index_of(t, pid);
            if i < at {
                assert(s[i].pid == pid);
            } else {
                assert(s[i + 1].pid == pid);
            }
        }
    }
    assert forall|i: int, j: int| 0 <= i < j < t.len() implies (#[trigger] t[i]).pid != (
    #[trigger] t[j]).pid by {
        let i0 = if i < at { i } else { i + 1 };
        let j0 = if j < at { j } else { j + 1 };
        assert(t[i] == s[i0]);
        assert(t[j] == s[j0]);
    }
}

/// In a sequence of distinct tasks a pid has one place.
pub proof fn lemma_index_unique(s: Seq<Task>, pid: Pid, at: int)
    requires
        distinct(s),
        0 <= at < s.len(),
        s[at].pid == pid,
    ensures
        has_pid(s, pid),
        index_of(s, pid) == at,
{
    let c = index_of(s, pid);
    if c < at {
        assert(s[c].pid != s[at].pid);
    } else if at < c {
        assert(s[at].pid != s[c].pid);
    }
}

/// Two sequences share no pid exactly if no pid of one is held by the other.
pub proof fn lemma_disjoint_by_pids(a: Seq<Task>, b: Seq<Task>)
    ensures
        disjoint(a, b) <==> (forall|pid: Pid| !(#[trigger] has_pid(a, pid) && has_pid(b, pid))),
{
    if disjoint(a, b) {
        assert forall|pid: Pid| !(#[trigger] has_pid(a, pid) && has_pid(b, pid)) by {
            if has_pid(a, pid) && has_pid(b, pid) {
                let i = index_of(a, pid);
                let j = index_of(b, pid);
                assert(a[i].pid != b[j].pid);
            }
        }
    }
    if forall|pid: Pid| !(#[trigger] has_pid(a, pid) && has_pid(b, pid)) {
        assert forall|i: int, j: int| 0 <= i < a.len() && 0 <= j < b.len() implies (
        #[trigger] a[i]).pid != (#[trigger] b[j]).pid by {
            if a[i].pid == b[j].pid {
                assert(has_pid(a, a[i].pid));
                assert(has_pid(b, a[i].pid));
            }
        }
    }
}

/// A task whose pid is free can join: the scheduler stays well-formed,
/// tracks that pid besides the others, and holds one more record.
pub proof fn lemma_place(v: SchedView, task: Task)
    requires
        v.wf(),
        task.wf(),
        !v.tracks(task.pid),
    ensures
        v.place(task).wf(),
        v.place(task).count() == v.count() + 1,
        forall|pid: Pid| #[trigger] v.place(task).tracks(pid) <==> v.tracks(pid) || pid == task.pid,
{
    let w = v.place(task);
    lemma_push_pids(v.runnable, task);
    lemma_push_pids(v.blocked, task);
    lemma_push_pids(v.terminal, task);
    lemma_disjoint_by_pids(v.runnable, v.blocked);
    lemma_disjoint_by_pids(v.runnable, v.terminal);
    lemma_disjoint_by_pids(v.blocked, v.terminal);
    lemma_disjoint_by_pids(w.runnable, w.blocked);
    lemma_disjoint_by_pids(w.runnable, w.terminal);
    lemma_disjoint_by_pids(w.blocked, w.terminal);
}

/// A task whose pid is free can join as the next one: the scheduler stays
/// well-formed, tracks that pid besides the others, and holds one more
/// record.
pub proof fn lemma_place_front(v: SchedView, task: Task)
    requires
        v.wf(),
        task.wf(),
        !v.tracks(task.pid),
    ensures
        v.place_front(task).wf(),
        v.place_front(task).count() == v.count() + 1,
        forall|pid: Pid| #[trigger]
            v.place_front(task).tracks(pid) <==> v.tracks(pid) || pid == task.pid,
{
    let w = v.place_front(task);
    lemma_insert_front_pids(v.runnable, task);
    lemma_insert_front_pids(v.terminal, task);
    lemma_disjoint_by_pids(v.runnable, v.blocked);
    lemma_disjoint_by_pids(v.runnable, v.terminal);
    lemma_disjoint_by_pids(v.blocked, v.terminal);
    lemma_disjoint_by_pids(w.runnable, w.blocked);
    lemma_disjoint_by_pids(w.runnable, w.terminal);
    lemma_disjoint_by_pids(w.blocked, w.terminal);
    if task.state.is_terminal() {
        assert forall|i: int| 0 <= i < w.terminal.len() implies (#[trigger] w.terminal[i]).wf()
            && w.terminal[i].state.is_terminal() by {
            if i > 0 {
                assert(w.terminal[i] == v.terminal[i - 1]);
            }
        }
    } else {
        assert forall|i: int| 0 <= i < w.runnable.len() implies (#[trigger] w.runnable[i]).wf()
            && !w.runnable[i].state.is_terminal() by {
            if i > 0 {
                assert(w.runnable[i] == v.runnable[i - 1]);
            }
        }
    }
}

/// Taking a record out leaves a well-formed scheduler that tracks every
/// other pid and no longer that one.
pub proof fn lemma_without(v: SchedView, pid: Pid)
    requires
        v.wf(),
    ensures
        v.without(pid).0.wf(),
        v.without(pid).1 is Some <==> v.tracks(pid),
        v.without(pid).1 matches Some(task) ==> task.pid == pid && task.wf()
            && v.without(pid).0.count() + 1 == v.count(),
        forall|other: Pid| #[trigger]
            v.without(pid).0.tracks(other) <==> v.tracks(other) && other != pid,
{
    let w = v.without(pid).0;
    lemma_disjoint_by_pids(v.runnable, v.blocked);
    lemma_disjoint_by_pids(v.runnable, v.terminal);
    lemma_disjoint_by_pids(v.blocked, v.terminal);
    lemma_disjoint_by_pids(w.runnable, w.blocked);
    lemma_disjoint_by_pids(w.runnable, w.terminal);
    lemma_disjoint_by_pids(w.blocked, w.terminal);
    if has_pid(v.runnable, pid) {
        lemma_remove_pids(v.runnable, index_of(v.runnable, pid));
    } else if has_pid(v.blocked, pid) {
        lemma_remove_pids(v.blocked, index_of(v.blocked, pid));
    } else if has_pid(v.terminal, pid) {
        lemma_remove_pids(v.terminal, index_of(v.terminal, pid));
    }
}

/// Taking the next task leaves a well-formed scheduler that tracks every
/// other pid and no longer that one.
pub proof fn lemma_take_next(v: SchedView)
    requires
        v.wf(),
        v.take_next() is Some,
    ensures
        ({
            let (task, rest) = v.take_next()->0;
            &&& rest.wf()
            &&& task.wf()
            &&& v.tracks(task.pid)
            &&& rest.count() + 1 == v.count()
            &&& (rest, Some(task)) == v.without(task.pid)
            &&& forall|pid: Pid| #[trigger] rest.tracks(pid) <==> v.tracks(pid) && pid != task.pid
        }),
{
    let (task, rest) = v.take_next()->0;
    lemma_disjoint_by_pids(v.runnable, v.blocked);
    lemma_disjoint_by_pids(v.runnable, v.terminal);
    lemma_disjoint_by_pids(v.blocked, v.terminal);
    if v.runnable.len() > 0 {
        lemma_index_unique(v.runnable, task.pid, 0);
    } else {
        lemma_index_unique(v.terminal, task.pid, 0);
        assert(!has_pid(v.runnable, task.pid));
    }
    lemma_without(v, task.pid);
}

/// A delivered stop leaves the scheduler well-formed, with the same pids
/// and the same number of records.
pub proof fn lemma_delivered(v: SchedView, stop: Stop)
    requires
        v.wf(),
    ensures
        v.delivered(stop).0.wf(),
        v.delivered(stop).0.count() == v.count(),
        forall|pid: Pid| #[trigger] v.delivered(stop).0.tracks(pid) <==> v.tracks(pid),
{
    lemma_without(v, stop.pid);
    let (rest, found) = v.without(stop.pid);
    if let Some(task) = found {
        if let Ok(next) = task.observed(stop.event) {
            lemma_place(rest, next);
        }
    }
}

/// One turn of the loop keeps the scheduler well-formed. It adds exactly one
/// record where the task forked and the child's pid was free, takes the
/// task's record away where the task is gone, and keeps the records
/// otherwise.
pub proof fn lemma_turn(rest: SchedView, task: Task)
    requires
        rest.wf(),
        task.wf(),
        !rest.tracks(task.pid),
    ensures
        rest.turn(task).0.wf(),
        task.driven() is Exited ==> rest.turn(task).0.count() == rest.count() && !rest.turn(
            task,
        ).0.tracks(task.pid),
        task.driven() is Runnable ==> rest.turn(task).0.count() == rest.count() + 1,
        task.driven() matches RunTask::Forked(parent, child) ==> {
            &&& rest.turn(task).0.tracks(parent.pid)
            &&& rest.turn(task).1 is None ==> rest.turn(task).0.count() == rest.count() + 2
                && rest.turn(task).0.tracks(child.pid) && !rest.tracks(child.pid)
            &&& rest.turn(task).1 is Some ==> rest.turn(task).0.count() == rest.count() + 1
        },
        forall|pid: Pid|
            rest.tracks(pid) ==> #[trigger] rest.turn(task).0.tracks(pid),
{
    let posted = rest.posted(task.request());
    assert(posted.wf());
    assert(forall|pid: Pid| #[trigger] posted.tracks(pid) <==> rest.tracks(pid));
    match task.driven() {
        RunTask::Exited(code) => {
            let w = SchedView { exit_code: code, ..posted };
            assert(forall|pid: Pid| #[trigger] w.tracks(pid) <==> rest.tracks(pid));
        },
        RunTask::Runnable(t) => {
            lemma_place(posted, t);
        },
        RunTask::Forked(parent, child) => {
            if posted.tracks(child.pid) || child.pid == parent.pid {
                lemma_place_front(posted, parent);
            } else {
                lemma_place(posted, child);
                lemma_place_front(posted.place(child), parent);
            }
        },
    }
}

/// The loop keeps the scheduler well-formed, and where it ends without an
/// error no task is left to drive.
pub proof fn lemma_drain(v: SchedView)
    requires
        v.wf(),
    ensures
        v.drain().0.wf(),
        v.drain().1 is Ok ==> v.drain().0.take_next() is None && v.drain().1 == Ok::<
            i32,
            TraceError,
        >(v.drain().0.exit_code),
    decreases v.fuel(),
{
    if let Some((task, rest)) = v.take_next() {
        lemma_take_next(v);
        lemma_turn(rest, task);
        lemma_turn_uses_fuel(v);
        let (next, failure) = rest.turn(task);
        if failure is None {
            lemma_drain(next);
        }
    }
}

/// A fork, clone or vfork yields exactly one new task. Where the next task
/// to drive is stopped at such an event and the child's pid is free, the
/// turn ends without an error, the scheduler holds one record more than
/// before, both the parent and the child are tracked, and every pid is still
/// tracked by one record only.
pub proof fn lemma_fork_yields_one_task(v: SchedView)
    requires
        v.wf(),
        v.take_next() is Some,
        ({
            let (task, _) = v.take_next()->0;
            task.driven() matches RunTask::Forked(parent, child) && !v.tracks(child.pid)
        }),
    ensures
        ({
            let (task, rest) = v.take_next()->0;
            let (next, failure) = rest.turn(task);
            &&& failure is None
            &&& next.wf()
            &&& next.count() == v.count() + 1
            &&& task.driven() matches RunTask::Forked(parent, child) && next.tracks(parent.pid)
                && next.tracks(child.pid) && parent.pid == task.pid && child.parent == Some(
                task.pid,
            )
            &&& forall|pid: Pid| v.tracks(pid) ==> #[trigger] next.tracks(pid)
        }),
{
    let (task, rest) = v.take_next()->0;
    lemma_take_next(v);
    lemma_turn(rest, task);
    assert(v.tracks(task.pid));
    assert forall|pid: Pid| v.tracks(pid) implies #[trigger] rest.turn(task).0.tracks(pid) by {
        if pid != task.pid {
            assert(rest.tracks(pid));
        }
    }
}

impl SchedView {
    /// The scheduler after the kernel delivered `stops` one by one and the
    /// tracer's loop ran after each of them.
    pub open spec fn after(self, stops: Seq<Stop>) -> SchedView
        decreases stops.len(),
    {
        if stops.len() == 0 {
            self
        } else {
            self.delivered(stops[0]).0.drain().0.after(stops.drop_first())
        }
    }
}

/// Whatever stops the kernel delivers, in whatever order, every pid stays
/// tracked by at most one task record.
pub proof fn lemma_pids_stay_unique(v: SchedView, stops: Seq<Stop>)
    requires
        v.wf(),
    ensures
        v.after(stops).wf(),
    decreases stops.len(),
{
    if stops.len() > 0 {
        lemma_delivered(v, stops[0]);
        lemma_drain(v.delivered(stops[0]).0);
        lemma_pids_stay_unique(v.delivered(stops[0]).0.drain().0, stops.drop_first());
    }
}

/// Whether `stop` is a fork, clone or vfork that a running task of `v`
/// reports while no task waits to be driven, with a pid for the child that
/// is free.
pub open spec fn is_fresh_fork(v: SchedView, stop: Stop) -> bool {
    &&& v.take_next() is None
    &&& has_pid(v.blocked, stop.pid)
    &&& v.blocked[index_of(v.blocked, stop.pid)].state is Running
    &&& match stop.event {
        StopEvent::Fork { child } | StopEvent::Clone { child } | StopEvent::Vfork { child } => {
            !v.tracks(child) && child != stop.pid
        },
        _ => false,
    }
}

/// Whether each of `stops`, when its turn comes, is such a fork.
pub open spec fn all_fresh_forks(v: SchedView, stops: Seq<Stop>) -> bool
    decreases stops.len(),
{
    stops.len() == 0 || (is_fresh_fork(v, stops[0]) && all_fresh_forks(
        v.delivered(stops[0]).0.drain().0,
        stops.drop_first(),
    ))
}

/// One fork, clone or vfork, delivered and driven to the end, leaves
/// exactly one task more: the child is new, the parent is still there, both
/// run, and no task waits to be driven.
pub proof fn lemma_fork_stop_adds_one(v: SchedView, stop: Stop)
    requires
        v.wf(),
        is_fresh_fork(v, stop),
    ensures
        ({
            let (w, r) = v.delivered(stop).0.drain();
            &&& v.delivered(stop).1 is Ok
            &&& r is Ok
            &&& w.wf()
            &&& w.count() == v.count() + 1
            &&& w.take_next() is None
            &&& w.tracks(stop.pid)
            &&& stop.event matches StopEvent::Fork { child } ==> w.tracks(child)
            &&& stop.event matches StopEvent::Clone { child } ==> w.tracks(child)
            &&& stop.event matches StopEvent::Vfork { child } ==> w.tracks(child)
            &&& forall|pid: Pid| v.tracks(pid) ==> #[trigger] w.tracks(pid)
        }),
{
    let at = index_of(v.blocked, stop.pid);
    let task = v.blocked[at];
    assert(v.runnable.len() == 0 && v.terminal.len() == 0);
    assert(!has_pid(v.runnable, stop.pid));
    lemma_without(v, stop.pid);
    let (rest, found) = v.without(stop.pid);
    assert(found == Some(task));
    assert(task.wf() && task.state is Running);
    let stopped = task.stopped_by(stop.event);
    assert(task.observed(stop.event) == Ok::<Task, TraceError>(stopped));
    lemma_delivered(v, stop);
    let d = v.delivered(stop).0;
    assert(d == rest.place(stopped));
    assert(d.runnable =~= seq![stopped]);
    assert(d.terminal.len() == 0);
    // The first turn settles the fork.
    lemma_take_next(d);
    let (first, rest1) = d.take_next()->0;
    assert(first == stopped);
    assert(rest1.runnable =~= Seq::<Task>::empty());
    lemma_turn(rest1, first);
    let (s2, failure) = rest1.turn(first);
    let child_pid = match stop.event {
        StopEvent::Fork { child } => child,
        StopEvent::Clone { child } => child,
        StopEvent::Vfork { child } => child,
        _ => 0,
    };
    let parent = first.resumed();
    let child = Task::fresh(child_pid, Some(first.pid), first.contract_armed);
    assert(first.driven() == RunTask::Forked(parent, child));
    let posted = rest1.posted(first.request());
    assert(!posted.tracks(child_pid)) by {
        assert(forall|pid: Pid| #[trigger] posted.tracks(pid) <==> rest1.tracks(pid));
        assert(!d.tracks(child_pid));
    }
    assert(failure is None);
    lemma_place(posted, child);
    assert(s2 == posted.place(child).place_front(parent));
    assert(s2.runnable =~= seq![parent]);
    assert(s2.terminal.len() == 0);
    assert(d.drain() == s2.drain());
    // The second turn finds the parent running and waits for it again.
    lemma_take_next(s2);
    let (second, rest2) = s2.take_next()->0;
    assert(second == parent);
    assert(rest2.runnable =~= Seq::<Task>::empty());
    lemma_turn(rest2, second);
    let (s3, failure2) = rest2.turn(second);
    assert(second.driven() == RunTask::Runnable(second));
    assert(failure2 is None);
    assert(s3.runnable.len() == 0 && s3.terminal.len() == 0);
    assert(s2.drain() == s3.drain());
    assert(s3.drain() == (s3, Ok::<i32, TraceError>(s3.exit_code)));
    assert(s3.tracks(stop.pid)) by {
        lemma_place(rest2.posted(second.request()), second);
    }
    assert forall|pid: Pid| v.tracks(pid) implies #[trigger] s3.tracks(pid) by {
        assert(d.tracks(pid));
        if pid != stop.pid {
            assert(rest1.tracks(pid));
            assert(s2.tracks(pid));
            assert(rest2.tracks(pid));
        }
    }
    assert(s3.tracks(child_pid)) by {
        assert(s2.tracks(child_pid));
        assert(rest2.tracks(child_pid));
    }
}

/// Every fork, clone and vfork yields exactly one new task: after any
/// number of them, each with a free pid for its child, the scheduler holds
/// as many records more as there were events, and every pid is still
/// tracked by one record only.
pub proof fn lemma_forks_add_tasks(v: SchedView, stops: Seq<Stop>)
    requires
        v.wf(),
        all_fresh_forks(v, stops),
    ensures
        v.after(stops).wf(),
        v.after(stops).count() == v.count() + stops.len(),
    decreases stops.len(),
{
    if stops.len() > 0 {
        lemma_fork_stop_adds_one(v, stops[0]);
        lemma_forks_add_tasks(v.delivered(stops[0]).0.drain().0, stops.drop_first());
    }
}

/// Which pids a sequence holds after one of its tasks was replaced by a
/// task with the same pid.
pub proof fn lemma_update_pids(s: Seq<Task>, at: int, task: Task)
    requires
        0 <= at < s.len(),
        task.pid == s[at].pid,
    ensures
        forall|pid: Pid| #[trigger] has_pid(s.update(at, task), pid) <==> has_pid(s, pid),
        distinct(s) ==> distinct(s.update(at, task)),
{
    let t = s.update(at, task);
    assert forall|pid: Pid| #[trigger] has_pid(t, pid) <==> has_pid(s, pid) by {
        if has_pid(s, pid) {
            let i = index_of(s, pid);
            assert(t[i].pid == pid);
        }
        if has_pid(t, pid) {
            let i = index_of(t, pid);
            assert(s[i].pid == pid);
        }
    }
    if distinct(s) {
        assert forall|i: int, j: int| 0 <= i < j < t.len() implies (#[trigger] t[i]).pid != (
        #[trigger] t[j]).pid by {
            assert(t[i].pid == s[i].pid);
            assert(t[j].pid == s[j].pid);
        }
    }
}

/// Arming the contract of a task keeps the scheduler well-formed, with the
/// same pids and the same number of records.
pub proof fn lemma_armed(v: SchedView, pid: Pid)
    requires
        v.wf(),
    ensures
        v.armed(pid).wf(),
        v.armed(pid).count() == v.count(),
        forall|other: Pid| #[trigger] v.armed(pid).tracks(other) == v.tracks(other),
{
    let w = v.armed(pid);
    lemma_disjoint_by_pids(v.runnable, v.blocked);
    lemma_disjoint_by_pids(v.runnable, v.terminal);
    lemma_disjoint_by_pids(v.blocked, v.terminal);
    lemma_disjoint_by_pids(w.runnable, w.blocked);
    lemma_disjoint_by_pids(w.runnable, w.terminal);
    lemma_disjoint_by_pids(w.blocked, w.terminal);
    if has_pid(v.runnable, pid) {
        let i = index_of(v.runnable, pid);
        lemma_update_pids(v.runnable, i, Task { contract_armed: true, ..v.runnable[i] });
        assert forall|k: int| 0 <= k < w.runnable.len() implies (#[trigger] w.runnable[k]).wf()
            && !w.runnable[k].state.is_terminal() by {
            assert(v.runnable[k].wf());
        }
    } else if has_pid(v.blocked, pid) {
        let i = index_of(v.blocked, pid);
        lemma_update_pids(v.blocked, i, Task { contract_armed: true, ..v.blocked[i] });
        assert forall|k: int| 0 <= k < w.blocked.len() implies (#[trigger] w.blocked[k]).wf()
            && w.blocked[k].state.is_waiting() by {
            assert(v.blocked[k].wf());
        }
    } else if has_pid(v.terminal, pid) {
        let i = index_of(v.terminal, pid);
        lemma_update_pids(v.terminal, i, Task { contract_armed: true, ..v.terminal[i] });
        assert forall|k: int| 0 <= k < w.terminal.len() implies (#[trigger] w.terminal[k]).wf()
            && w.terminal[k].state.is_terminal() by {
            assert(v.terminal[k].wf());
        }
    }
}

} // verus!
