//! One traced process: what the tracer remembers about it, the reasons for
//! which the kernel stops it, and the transition that turns a delivered stop
//! into the next state and the request to hand back to the kernel.

use vstd::prelude::*;
use crate::consts::{SIGNAL_EXIT_BIT, SIGSTOP};

verus! {

/// A process id as the kernel reports it.
pub type Pid = i32;

/// The registers of a stopped task that the tracer reads and writes.
#[derive(Clone, Copy, Debug, PartialEq, Eq)]
pub struct Registers {
    pub orig_rax: u64,
    pub rax: u64,
    pub rdi: u64,
    pub rsi: u64,
    pub rdx: u64,
    pub r10: u64,
    pub r8: u64,
    pub r9: u64,
    pub rip: u64,
    pub rsp: u64,
}

/// A syscall number with its six arguments, in the fixed layout that the
/// injected code and the tracer share.
#[derive(Clone, Copy, Debug, PartialEq, Eq)]
pub struct SyscallInfo {
    pub no: u64,
    pub args: [u64; 6],
}

/// What the policy answers for one intercepted syscall.
#[derive(Clone, Copy, Debug, PartialEq, Eq)]
pub enum SyscallDecision {
    /// The tracer supplies the result; the kernel does not run the call.
    Emulate(i64),
    /// The task runs the call natively.
    PassThrough,
}

/// What the policy answers for one signal about to be delivered.
#[derive(Clone, Copy, Debug, PartialEq, Eq)]
pub enum SignalDecision {
    Forward,
    Suppress,
}

/// What happens to a signal that the policy does not speak of: it is
/// forwarded to the task as it came.
pub fn default_signal_decision() -> (d: SignalDecision)
    ensures
        d == SignalDecision::Forward,
{
    SignalDecision::Forward
}

/// How a process ended.
#[derive(Clone, Copy, Debug, PartialEq, Eq)]
pub enum ExitStatus {
    Exited(i32),
    Killed(i32),
}

/// One stop of a traced process as the kernel delivers it, together with
/// what the tracer had to query to understand it.
#[derive(Clone, Copy, Debug, PartialEq, Eq)]
pub enum StopEvent {
    /// The process is gone after a normal exit.
    Exited { code: i32 },
    /// The process is gone, killed by a signal.
    Signaled { signal: i32 },
    /// A signal is about to be delivered.
    Signal { signal: i32, disposition: SignalDecision },
    /// Every thread of the process is stopped.
    GroupStop { signal: i32 },
    /// The task enters or leaves a syscall.
    Syscall { regs: Registers },
    /// The kernel filter classified a syscall as one for the tracer.
    KernelFilter { regs: Registers, decision: SyscallDecision },
    Fork { child: Pid },
    Clone { child: Pid },
    Vfork { child: Pid },
    VforkDone,
    Exec,
    /// The process is about to end with the given status.
    Exit { status: ExitStatus },
}

/// A stop event with the process it belongs to.
#[derive(Clone, Copy, Debug, PartialEq, Eq)]
pub struct Stop {
    pub pid: Pid,
    pub event: StopEvent,
}

/// The state of a traced task.
#[derive(Clone, Copy, Debug, PartialEq, Eq)]
pub enum TaskState {
    /// Attached, not yet confirmed stopped.
    Created,
    /// The initial stop signal was observed.
    InitialStop,
    Running,
    SyscallTrap,
    KernelFilterTrap { decision: SyscallDecision },
    SignalDeliveryStop { signal: i32, disposition: SignalDecision },
    ForkEvent { child: Pid },
    CloneEvent { child: Pid },
    VforkEvent { child: Pid },
    VforkDoneEvent,
    ExecEvent,
    ExitEvent { status: ExitStatus },
    GroupStop { signal: i32 },
    Exited(i32),
    Killed(i32),
}

/// Why the tracer cannot go on.
#[derive(Clone, Copy, Debug, PartialEq, Eq)]
pub enum TraceError {
    /// A stop was delivered for a process that no task stands for.
    UnknownPid(Pid),
    /// A new task would carry the pid of a task already tracked.
    DuplicatePid(Pid),
    /// A stop was delivered that the task's state does not allow.
    UnexpectedStop(Pid),
}

/// What the tracer must ask of the kernel so that a stopped task moves on.
#[derive(Clone, Copy, Debug, PartialEq, Eq)]
pub enum Action {
    Nothing,
    /// Resume the task, delivering the signal if there is one.
    Resume { pid: Pid, signal: Option<i32> },
    /// Write the registers, then resume the task.
    ResumeWithRegisters { pid: Pid, regs: Registers },
}

/// One traced process.
#[derive(Clone, Copy, Debug, PartialEq, Eq)]
pub struct Task {
    pub pid: Pid,
    pub state: TaskState,
    /// The last register snapshot the tracer took.
    pub regs: Option<Registers>,
    /// The syscall the task is in the middle of.
    pub pending: Option<SyscallInfo>,
    /// The task that forked this one; a lookup key, not an owner.
    pub parent: Option<Pid>,
    /// The exit code, once the task is terminal.
    pub exit_status: Option<i32>,
    /// Whether the injected code of the current image has armed its contract.
    pub contract_armed: bool,
}

/// The result of driving a task forward once.
#[derive(Clone, Copy, Debug, PartialEq, Eq)]
pub enum RunTask {
    Exited(i32),
    Runnable(Task),
    Forked(Task, Task),
}

/// The exit code that stands for death by `signal`.
pub open spec fn signal_exit_code(signal: i32) -> i32 {
    SIGNAL_EXIT_BIT | signal
}

/// An exit code that stands for death by signal has the signal bit set,
/// and for the signals that the kernel knows it is the signal's number
/// above that bit.
pub proof fn lemma_signal_exit_code(signal: i32)
    ensures
        signal_exit_code(signal) & SIGNAL_EXIT_BIT == SIGNAL_EXIT_BIT,
        0 <= signal < 128 ==> signal_exit_code(signal) == 128 + signal,
{
    assert((0x80i32 | signal) & 0x80i32 == 0x80i32) by (bit_vector);
    assert(0 <= signal < 128 ==> (0x80i32 | signal) == 128 + signal) by (bit_vector);
}

impl ExitStatus {
    /// The exit code that reports this status.
    pub open spec fn code(self) -> i32 {
        match self {
            ExitStatus::Exited(code) => code,
            ExitStatus::Killed(signal) => signal_exit_code(signal),
        }
    }

    pub fn exit_code(self) -> (code: i32)
        ensures
            code == self.code(),
    {
        match self {
            ExitStatus::Exited(code) => code,
            ExitStatus::Killed(signal) => SIGNAL_EXIT_BIT | signal,
        }
    }

    /// The terminal task state that this status leads to.
    pub open spec fn terminal_state(self) -> TaskState {
        match self {
            ExitStatus::Exited(code) => TaskState::Exited(code),
            ExitStatus::Killed(signal) => TaskState::Killed(signal),
        }
    }
}

impl Registers {
    /// The syscall that the registers of a task stopped at a syscall hold.
    pub open spec fn syscall(self) -> SyscallInfo {
        SyscallInfo {
            no: self.orig_rax,
            args: [self.rdi, self.rsi, self.rdx, self.r10, self.r8, self.r9],
        }
    }

    pub fn syscall_info(&self) -> (info: SyscallInfo)
        ensures
            info == self.syscall(),
    {
        SyscallInfo {
            no: self.orig_rax,
            args: [self.rdi, self.rsi, self.rdx, self.r10, self.r8, self.r9],
        }
    }

    /// The registers after the tracer has answered the pending syscall with
    /// `value`: the result register holds the value and the syscall number
    /// is invalid, so the kernel runs nothing.
    pub open spec fn emulated(self, value: i64) -> Registers {
        Registers { rax: value as u64, orig_rax: u64::MAX, ..self }
    }

    pub fn with_emulated_result(&self, value: i64) -> (regs: Registers)
        ensures
            regs == self.emulated(value),
    {
        Registers {
            orig_rax: u64::MAX,
            rax: value as u64,
            rdi: self.rdi,
            rsi: self.rsi,
            rdx: self.rdx,
            r10: self.r10,
            r8: self.r8,
            r9: self.r9,
            rip: self.rip,
            rsp: self.rsp,
        }
    }
}

impl TaskState {
    pub open spec fn is_terminal(self) -> bool {
        self is Exited || self is Killed
    }

    /// Whether the task runs, or is about to, and the tracer waits for its
    /// next stop.
    pub open spec fn is_waiting(self) -> bool {
        self is Created || self is Running
    }

    /// Whether the kernel holds the task in a stop that the tracer has not
    /// answered yet.
    pub open spec fn is_stopped(self) -> bool {
        !self.is_terminal() && !self.is_waiting()
    }

    pub fn terminal(&self) -> (b: bool)
        ensures
            b == self.is_terminal(),
    {
        match self {
            TaskState::Exited(_) => true,
            TaskState::Killed(_) => true,
            _ => false,
        }
    }

    pub fn waiting(&self) -> (b: bool)
        ensures
            b == self.is_waiting(),
    {
        match self {
            TaskState::Created => true,
            TaskState::Running => true,
            _ => false,
        }
    }

    /// Whether the kernel holds the task in a stop, so that its memory and
    /// registers can be read.
    pub fn stopped(&self) -> (b: bool)
        ensures
            b == self.is_stopped(),
    {
        !self.terminal() && !self.waiting()
    }

    /// Whether every thread of the process is stopped, so that a write to
    /// its memory cannot race with a thread that runs.
    pub fn group_stopped(&self) -> (b: bool)
        ensures
            b == (self is GroupStop),
    {
        match self {
            TaskState::GroupStop { .. } => true,
            _ => false,
        }
    }
}

impl Task {
    /// What holds of every task record: the exit code is known exactly when
    /// the task is terminal, a pending syscall was read from a register
    /// snapshot, and a task stopped by the kernel filter has its call pending.
    pub open spec fn wf(self) -> bool {
        &&& self.state.is_terminal() <==> self.exit_status is Some
        &&& self.state matches TaskState::Exited(code) ==> self.exit_status == Some(code)
        &&& self.state matches TaskState::Killed(signal) ==> self.exit_status == Some(
            signal_exit_code(signal),
        )
        &&& self.pending is Some ==> self.regs is Some
        &&& self.state is KernelFilterTrap ==> self.regs is Some && self.pending is Some
    }

    /// A task that the tracer has just learnt of.
    pub open spec fn fresh(pid: Pid, parent: Option<Pid>, contract_armed: bool) -> Task {
        Task {
            pid,
            state: TaskState::Created,
            regs: None,
            pending: None,
            parent,
            exit_status: None,
            contract_armed,
        }
    }

    /// The record of a newly attached process without a traced parent.
    pub fn new(pid: Pid) -> (task: Task)
        ensures
            task == Task::fresh(pid, None, false),
            task.wf(),
    {
        Task {
            pid,
            state: TaskState::Created,
            regs: None,
            pending: None,
            parent: None,
            exit_status: None,
            contract_armed: false,
        }
    }

    /// The task after its process has ended with `status`.
    pub open spec fn ended(self, status: ExitStatus) -> Task {
        Task {
            state: status.terminal_state(),
            pending: None,
            exit_status: Some(status.code()),
            ..self
        }
    }

    /// The task after the kernel stopped it while it ran.
    pub open spec fn stopped_by(self, event: StopEvent) -> Task {
        match event {
            StopEvent::Exited { code } => self.ended(ExitStatus::Exited(code)),
            StopEvent::Signaled { signal } => self.ended(ExitStatus::Killed(signal)),
            StopEvent::Signal { signal, disposition } => Task {
                state: TaskState::SignalDeliveryStop { signal, disposition },
                ..self
            },
            StopEvent::GroupStop { signal } => Task {
                state: TaskState::GroupStop { signal },
                ..self
            },
            StopEvent::Syscall { regs } => Task {
                state: TaskState::SyscallTrap,
                regs: Some(regs),
                pending: if self.pending is None {
                    Some(regs.syscall())
                } else {
                    None
                },
                ..self
            },
            StopEvent::KernelFilter { regs, decision } => Task {
                state: TaskState::KernelFilterTrap { decision },
                regs: Some(regs),
                pending: Some(regs.syscall()),
                ..self
            },
            StopEvent::Fork { child } => Task { state: TaskState::ForkEvent { child }, ..self },
            StopEvent::Clone { child } => Task { state: TaskState::CloneEvent { child }, ..self },
            StopEvent::Vfork { child } => Task { state: TaskState::VforkEvent { child }, ..self },
            StopEvent::VforkDone => Task { state: TaskState::VforkDoneEvent, ..self },
            StopEvent::Exec => Task { state: TaskState::ExecEvent, ..self },
            StopEvent::Exit { status } => Task { state: TaskState::ExitEvent { status }, ..self },
        }
    }

    /// Whether the kernel can deliver `event` to a task in this state. A
    /// process can end at any time before it is terminal. A task not yet
    /// confirmed stopped can only meet its initial stop signal. Every other
    /// stop reaches a running task only.
    pub open spec fn accepts(self, event: StopEvent) -> bool {
        if self.state.is_terminal() {
            false
        } else if event is Exited || event is Signaled {
            true
        } else if self.state is Created {
            event matches StopEvent::Signal { signal, .. } && signal == SIGSTOP
        } else {
            self.state is Running
        }
    }

    /// The task after `event` was delivered to it.
    pub open spec fn observed(self, event: StopEvent) -> Result<Task, TraceError> {
        if !self.accepts(event) {
            Err(TraceError::UnexpectedStop(self.pid))
        } else if self.state is Created && event is Signal {
            Ok(Task { state: TaskState::InitialStop, ..self })
        } else {
            Ok(self.stopped_by(event))
        }
    }

    /// Records one stop that the kernel delivered for the task.
    pub fn observe(self, event: StopEvent) -> (r: Result<Task, TraceError>)
        requires
            self.wf(),
        ensures
            r == self.observed(event),
            r matches Ok(task) ==> task.wf() && task.pid == self.pid && task.parent == self.parent
                && !task.state.is_waiting(),
    {
        if self.state.terminal() {
            return Err(TraceError::UnexpectedStop(self.pid));
        }
        let mut task = self;
        match event {
            StopEvent::Exited { code } => {
                task.state = TaskState::Exited(code);
                task.pending = None;
                task.exit_status = Some(code);
                return Ok(task);
            },
            StopEvent::Signaled { signal } => {
                task.state = TaskState::Killed(signal);
                task.pending = None;
                task.exit_status = Some(SIGNAL_EXIT_BIT | signal);
                return Ok(task);
            },
            _ => {},
        }
        match self.state {
            TaskState::Created => {
                match event {
                    StopEvent::Signal { signal, disposition: _ } => {
                        if signal == SIGSTOP {
                            task.state = TaskState::InitialStop;
                            return Ok(task);
                        }
                        return Err(TraceError::UnexpectedStop(self.pid));
                    },
                    _ => {
                        return Err(TraceError::UnexpectedStop(self.pid));
                    },
                }
            },
            TaskState::Running => {},
            _ => {
                return Err(TraceError::UnexpectedStop(self.pid));
            },
        }
        match event {
            StopEvent::Signal { signal, disposition } => {
                task.state = TaskState::SignalDeliveryStop { signal, disposition };
            },
            StopEvent::GroupStop { signal } => {
                task.state = TaskState::GroupStop { signal };
            },
            StopEvent::Syscall { regs } => {
                task.state = TaskState::SyscallTrap;
                task.regs = Some(regs);
                task.pending = if self.pending.is_none() {
                    Some(regs.syscall_info())
                } else {
                    None
                };
            },
            StopEvent::KernelFilter { regs, decision } => {
                task.state = TaskState::KernelFilterTrap { decision };
                task.regs = Some(regs);
                task.pending = Some(regs.syscall_info());
            },
            StopEvent::Fork { child } => {
                task.state = TaskState::ForkEvent { child };
            },
            StopEvent::Clone { child } => {
                task.state = TaskState::CloneEvent { child };
            },
            StopEvent::Vfork { child } => {
                task.state = TaskState::VforkEvent { child };
            },
            StopEvent::VforkDone => {
                task.state = TaskState::VforkDoneEvent;
            },
            StopEvent::Exec => {
                task.state = TaskState::ExecEvent;
            },
            StopEvent::Exit { status } => {
                task.state = TaskState::ExitEvent { status };
            },
            _ => {},
        }
        Ok(task)
    }

    /// The request that answers the stop that the task is in. A signal is
    /// handed on unless the policy suppressed it; an emulated syscall has its
    /// result written to the registers first; every other stop is answered
    /// by a plain resume. A task that is not stopped needs nothing.
    pub open spec fn request(self) -> Action {
        match self.state {
            TaskState::Created | TaskState::Running | TaskState::Exited(_) | TaskState::Killed(
                _,
            ) => Action::Nothing,
            TaskState::SignalDeliveryStop { signal, disposition: SignalDecision::Forward } => {
                Action::Resume { pid: self.pid, signal: Some(signal) }
            },
            TaskState::KernelFilterTrap { decision: SyscallDecision::Emulate(value) } => {
                match self.regs {
                    Some(regs) => Action::ResumeWithRegisters {
                        pid: self.pid,
                        regs: regs.emulated(value),
                    },
                    None => Action::Resume { pid: self.pid, signal: None },
                }
            },
            _ => Action::Resume { pid: self.pid, signal: None },
        }
    }

    pub fn action(&self) -> (a: Action)
        ensures
            a == self.request(),
    {
        match self.state {
            TaskState::Created => Action::Nothing,
            TaskState::Running => Action::Nothing,
            TaskState::Exited(_) => Action::Nothing,
            TaskState::Killed(_) => Action::Nothing,
            TaskState::SignalDeliveryStop { signal, disposition } => {
                match disposition {
                    SignalDecision::Forward => Action::Resume { pid: self.pid, signal: Some(signal) },
                    SignalDecision::Suppress => Action::Resume { pid: self.pid, signal: None },
                }
            },
            TaskState::KernelFilterTrap { decision } => {
                match (decision, self.regs) {
                    (SyscallDecision::Emulate(value), Some(regs)) => Action::ResumeWithRegisters {
                        pid: self.pid,
                        regs: regs.with_emulated_result(value),
                    },
                    _ => Action::Resume { pid: self.pid, signal: None },
                }
            },
            _ => Action::Resume { pid: self.pid, signal: None },
        }
    }

    /// The task after the tracer answered its stop and the kernel runs it
    /// again. An emulated syscall leaves its result in the register
    /// snapshot. A syscall stop keeps the call pending until the task leaves
    /// it; the kernel filter's stop hands the call back, so nothing stays
    /// pending. A new program image has not armed any contract yet.
    pub open spec fn resumed(self) -> Task {
        match self.state {
            TaskState::KernelFilterTrap { decision } => Task {
                state: TaskState::Running,
                regs: match (decision, self.regs) {
                    (SyscallDecision::Emulate(value), Some(regs)) => Some(regs.emulated(value)),
                    _ => self.regs,
                },
                pending: None,
                ..self
            },
            TaskState::ExecEvent => Task {
                state: TaskState::Running,
                pending: None,
                contract_armed: false,
                ..self
            },
            _ => Task { state: TaskState::Running, ..self },
        }
    }

    /// The result of driving the task forward once. A terminal task, and one
    /// about to end, yields its exit code. A fork, clone or vfork yields the
    /// resumed parent and one new task for the child, which remembers the
    /// parent's pid and shares the parent's memory image. A task that is not
    /// stopped stays as it is. Every other stop yields the resumed task.
    pub open spec fn driven(self) -> RunTask {
        match self.state {
            TaskState::Exited(code) => RunTask::Exited(code),
            TaskState::Killed(signal) => RunTask::Exited(signal_exit_code(signal)),
            TaskState::ExitEvent { status } => RunTask::Exited(status.code()),
            TaskState::Created | TaskState::Running => RunTask::Runnable(self),
            TaskState::ForkEvent { child } | TaskState::CloneEvent { child } | TaskState::VforkEvent {
                child,
            } => RunTask::Forked(
                self.resumed(),
                Task::fresh(child, Some(self.pid), self.contract_armed),
            ),
            _ => RunTask::Runnable(self.resumed()),
        }
    }

    /// Drives the task forward once.
    pub fn run(self) -> (r: RunTask)
        requires
            self.wf(),
        ensures
            r == self.driven(),
            r matches RunTask::Runnable(task) ==> task.wf() && task.pid == self.pid
                && task.state.is_waiting(),
            r matches RunTask::Forked(parent, child) ==> parent.wf() && child.wf() && parent.pid
                == self.pid && parent.state is Running && child.state is Created && child.parent
                == Some(self.pid),
            r is Forked <==> (self.state is ForkEvent || self.state is CloneEvent
                || self.state is VforkEvent),
            r is Exited <==> (self.state.is_terminal() || self.state is ExitEvent),
    {
        let mut task = self;
        match self.state {
            TaskState::Exited(code) => RunTask::Exited(code),
            TaskState::Killed(signal) => RunTask::Exited(SIGNAL_EXIT_BIT | signal),
            TaskState::ExitEvent { status } => RunTask::Exited(status.exit_code()),
            TaskState::Created => RunTask::Runnable(task),
            TaskState::Running => RunTask::Runnable(task),
            TaskState::ForkEvent { child } => {
                task.state = TaskState::Running;
                RunTask::Forked(task, Task::child_of(&self, child))
            },
            TaskState::CloneEvent { child } => {
                task.state = TaskState::Running;
                RunTask::Forked(task, Task::child_of(&self, child))
            },
            TaskState::VforkEvent { child } => {
                task.state = TaskState::Running;
                RunTask::Forked(task, Task::child_of(&self, child))
            },
            TaskState::KernelFilterTrap { decision } => {
                task.state = TaskState::Running;
                task.pending = None;
                match (decision, self.regs) {
                    (SyscallDecision::Emulate(value), Some(regs)) => {
                        task.regs = Some(regs.with_emulated_result(value));
                    },
                    _ => {},
                }
                RunTask::Runnable(task)
            },
            TaskState::ExecEvent => {
                task.state = TaskState::Running;
                task.pending = None;
                task.contract_armed = false;
                RunTask::Runnable(task)
            },
            _ => {
                task.state = TaskState::Running;
                RunTask::Runnable(task)
            },
        }
    }

    /// The record of a child that the task has just created.
    pub fn child_of(&self, child: Pid) -> (task: Task)
        ensures
            task == Task::fresh(child, Some(self.pid), self.contract_armed),
            task.wf(),
    {
        Task {
            pid: child,
            state: TaskState::Created,
            regs: None,
            pending: None,
            parent: Some(self.pid),
            exit_status: None,
            contract_armed: self.contract_armed,
        }
    }

    /// Records that the injected code of the task's image has armed its
    /// contract.
    pub fn arm_contract(&mut self)
        ensures
            *final(self) == (Task { contract_armed: true, ..*old(self) }),
    {
        self.contract_armed = true;
    }
}

} // verus!
