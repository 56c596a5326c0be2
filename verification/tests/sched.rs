use systrace::sched::{run_tracer_main, SchedWait};
use systrace::task::{
    Action, ExitStatus, Registers, SignalDecision, Stop, StopEvent, SyscallDecision, Task,
    TaskState, TraceError,
};

fn sigstop(pid: i32) -> Stop {
    Stop { pid, event: StopEvent::Signal { signal: 19, disposition: SignalDecision::Forward } }
}

fn started(pid: i32) -> SchedWait {
    let mut sched = SchedWait::new();
    sched.add(Task::new(pid));
    sched.deliver(sigstop(pid)).unwrap();
    assert_eq!(run_tracer_main(&mut sched), Ok(0));
    assert_eq!(sched.take_actions(), vec![Action::Resume { pid, signal: None }]);
    sched
}

fn feed(sched: &mut SchedWait, stop: Stop) -> Result<i32, TraceError> {
    sched.deliver(stop)?;
    run_tracer_main(sched)
}

#[test]
fn empty_scheduler_has_nothing_to_do() {
    let mut sched = SchedWait::new();
    assert!(sched.is_empty());
    assert_eq!(sched.next(), None);
    assert_eq!(run_tracer_main(&mut sched), Ok(0));
    assert_eq!(sched.exit_code(), 0);
}

#[test]
fn program_that_exits_with_zero() {
    let mut sched = started(100);
    assert_eq!(feed(&mut sched, Stop { pid: 100, event: StopEvent::Exec }), Ok(0));
    assert_eq!(feed(&mut sched, Stop { pid: 100, event: StopEvent::Exited { code: 0 } }), Ok(0));
    assert!(sched.is_empty());
}

#[test]
fn program_killed_by_sigkill() {
    let mut sched = started(100);
    assert_eq!(feed(&mut sched, Stop { pid: 100, event: StopEvent::Signaled { signal: 9 } }), Ok(137));
    assert!(sched.is_empty());
    assert_eq!(sched.exit_code(), 0x80 | 9);
}

#[test]
fn fork_child_exits_first_parent_code_wins() {
    let mut sched = started(100);
    assert_eq!(feed(&mut sched, Stop { pid: 100, event: StopEvent::Fork { child: 101 } }), Ok(0));
    assert!(sched.tracks(100));
    assert!(sched.tracks(101));
    assert_eq!(feed(&mut sched, sigstop(101)), Ok(0));
    assert_eq!(feed(&mut sched, Stop { pid: 101, event: StopEvent::Exited { code: 3 } }), Ok(3));
    assert!(!sched.tracks(101));
    assert_eq!(feed(&mut sched, Stop { pid: 100, event: StopEvent::Exited { code: 0 } }), Ok(0));
    assert!(sched.is_empty());
    assert_eq!(sched.exit_code(), 0);
}

#[test]
fn fork_parent_exits_first_child_code_wins() {
    let mut sched = started(100);
    assert_eq!(feed(&mut sched, Stop { pid: 100, event: StopEvent::Fork { child: 101 } }), Ok(0));
    assert_eq!(feed(&mut sched, sigstop(101)), Ok(0));
    assert_eq!(feed(&mut sched, Stop { pid: 100, event: StopEvent::Exited { code: 0 } }), Ok(0));
    assert_eq!(feed(&mut sched, Stop { pid: 101, event: StopEvent::Exited { code: 3 } }), Ok(3));
    assert!(sched.is_empty());
    assert_eq!(sched.exit_code(), 3);
}

#[test]
fn every_fork_adds_one_task() {
    let mut sched = started(1);
    let events = [
        (1, StopEvent::Fork { child: 2 }),
        (1, StopEvent::Clone { child: 3 }),
        (1, StopEvent::Vfork { child: 4 }),
    ];
    let mut expected = 1;
    for (pid, event) in events {
        assert_eq!(feed(&mut sched, Stop { pid, event }), Ok(0));
        expected += 1;
        let known = (0..10).filter(|p| sched.tracks(*p)).count();
        assert_eq!(known, expected);
    }
    for pid in [1, 2, 3, 4] {
        assert!(sched.tracks(pid));
        let task = sched.get(pid).unwrap();
        assert_eq!(task.pid, pid);
        if pid != 1 {
            assert_eq!(task.parent, Some(1));
            assert_eq!(task.state, TaskState::Created);
        }
    }
}

#[test]
fn fork_with_taken_pid_is_an_error() {
    let mut sched = started(1);
    assert_eq!(feed(&mut sched, Stop { pid: 1, event: StopEvent::Fork { child: 2 } }), Ok(0));
    assert_eq!(
        feed(&mut sched, Stop { pid: 1, event: StopEvent::Fork { child: 2 } }),
        Err(TraceError::DuplicatePid(2))
    );
    assert!(sched.tracks(1));
    assert!(sched.tracks(2));
    assert_eq!(run_tracer_main(&mut sched), Ok(0));
    assert_eq!(
        feed(&mut sched, Stop { pid: 1, event: StopEvent::Clone { child: 1 } }),
        Err(TraceError::DuplicatePid(1))
    );
}

#[test]
fn stop_of_unknown_pid_is_an_error() {
    let mut sched = started(1);
    assert_eq!(
        sched.deliver(Stop { pid: 9, event: StopEvent::Exec }),
        Err(TraceError::UnknownPid(9))
    );
    assert_eq!(sched.deliver(Stop { pid: 9, event: StopEvent::Exited { code: 1 } }), Ok(()));
    assert_eq!(sched.deliver(Stop { pid: 9, event: StopEvent::Signaled { signal: 9 } }), Ok(()));
    assert_eq!(run_tracer_main(&mut sched), Ok(0));
    assert!(sched.tracks(1));
}

#[test]
fn exit_event_then_late_exit_report() {
    let mut sched = started(1);
    assert_eq!(
        feed(&mut sched, Stop { pid: 1, event: StopEvent::Exit { status: ExitStatus::Exited(7) } }),
        Ok(7)
    );
    assert!(sched.is_empty());
    assert_eq!(sched.take_actions(), vec![Action::Resume { pid: 1, signal: None }]);
    assert_eq!(feed(&mut sched, Stop { pid: 1, event: StopEvent::Exited { code: 7 } }), Ok(7));
}

#[test]
fn unexpected_stop_changes_nothing() {
    let mut sched = SchedWait::new();
    sched.add(Task::new(1));
    assert_eq!(
        sched.deliver(Stop { pid: 1, event: StopEvent::Exec }),
        Err(TraceError::UnexpectedStop(1))
    );
    assert_eq!(sched.get(1), Some(Task::new(1)));
    assert_eq!(sched.next(), None);
}

#[test]
fn parent_is_taken_before_older_stops() {
    let mut sched = SchedWait::new();
    sched.add(Task::new(1));
    sched.add(Task::new(2));
    sched.deliver(sigstop(1)).unwrap();
    sched.deliver(sigstop(2)).unwrap();
    assert_eq!(run_tracer_main(&mut sched), Ok(0));
    sched.take_actions();
    sched.deliver(Stop { pid: 1, event: StopEvent::Fork { child: 3 } }).unwrap();
    sched.deliver(Stop { pid: 2, event: StopEvent::Exec }).unwrap();
    let first = sched.next().unwrap();
    assert_eq!(first.pid, 1);
    sched.add_and_schedule(first);
    let again = sched.next().unwrap();
    assert_eq!(again.pid, 1);
    sched.add_and_schedule(again);
    assert_eq!(run_tracer_main(&mut sched), Ok(0));
    assert_eq!(
        sched.take_actions(),
        vec![Action::Resume { pid: 1, signal: None }, Action::Resume { pid: 2, signal: None }]
    );
    assert!(sched.tracks(3));
}

#[test]
fn actions_wait_in_order_until_taken() {
    let mut sched = started(1);
    let regs = Registers {
        orig_rax: 39,
        rax: 0,
        rdi: 0,
        rsi: 0,
        rdx: 0,
        r10: 0,
        r8: 0,
        r9: 0,
        rip: 0,
        rsp: 0,
    };
    feed(
        &mut sched,
        Stop { pid: 1, event: StopEvent::KernelFilter { regs, decision: SyscallDecision::Emulate(1) } },
    )
    .unwrap();
    feed(
        &mut sched,
        Stop { pid: 1, event: StopEvent::Signal { signal: 15, disposition: SignalDecision::Forward } },
    )
    .unwrap();
    let mut written = regs;
    written.rax = 1;
    written.orig_rax = u64::MAX;
    assert_eq!(
        sched.take_actions(),
        vec![
            Action::ResumeWithRegisters { pid: 1, regs: written },
            Action::Resume { pid: 1, signal: Some(15) },
        ]
    );
    assert_eq!(sched.take_actions(), Vec::new());
}

#[test]
fn remove_takes_the_record_out() {
    let mut sched = started(1);
    let task = sched.remove(1).unwrap();
    assert_eq!(task.pid, 1);
    assert_eq!(task.state, TaskState::Running);
    assert!(!sched.tracks(1));
    assert_eq!(sched.remove(1), None);
    assert!(sched.is_empty());
}

#[test]
fn terminal_task_is_taken_after_runnable_ones() {
    let mut sched = SchedWait::new();
    let gone = Task::new(5).observe(StopEvent::Exited { code: 9 }).unwrap();
    sched.add(gone);
    sched.add(Task::new(6));
    sched.deliver(sigstop(6)).unwrap();
    assert_eq!(sched.next().unwrap().pid, 6);
    assert_eq!(sched.next().unwrap().pid, 5);
    assert_eq!(sched.next(), None);
}
