//! How the sandbox comes up: the order of the steps that each of the three
//! processes takes, the trace options, the handshake on the initial stop,
//! and the rule of the kernel filter.

use vstd::prelude::*;
use crate::consts::{SIGSTOP, SYSCALL_UNTRACED, SYS_EXECVE};
use crate::counter::EntryPoint;
use crate::task::{Pid, Stop, StopEvent};

verus! {

/// What the kernel filter does with a syscall.
#[derive(Clone, Copy, Debug, PartialEq, Eq)]
pub enum FilterVerdict {
    /// The call runs directly.
    Allow,
    /// The call stops the task for the tracer.
    Trap,
}

/// The rule of the kernel filter: the call that replaces the program image
/// always runs, and so does a call that carries the marker of the untraced
/// entry; every other call is trapped.
pub open spec fn verdict(no: u64, marker: u64) -> FilterVerdict {
    if no == SYS_EXECVE || marker == SYSCALL_UNTRACED {
        FilterVerdict::Allow
    } else {
        FilterVerdict::Trap
    }
}

/// What the kernel filter does with the syscall `no` that carries `marker`.
pub fn filter_verdict(no: u64, marker: u64) -> (v: FilterVerdict)
    ensures
        v == verdict(no, marker),
{
    if no == SYS_EXECVE || marker == SYSCALL_UNTRACED {
        FilterVerdict::Allow
    } else {
        FilterVerdict::Trap
    }
}

/// The entry point decides for every call but the one that replaces the
/// program image: a call through the traced entry is trapped, one through
/// the untraced entry runs directly.
pub proof fn lemma_entry_decides(no: u64, entry: EntryPoint)
    ensures
        no == SYS_EXECVE ==> verdict(no, entry.marker()) is Allow,
        no != SYS_EXECVE ==> (verdict(no, entry.marker()) is Trap <==> entry is Traced),
{
}

/// One of the events that the tracer asks the kernel to stop a task for,
/// or a rule that it asks the kernel to keep.
#[derive(Clone, Copy, Debug, PartialEq, Eq)]
pub enum TraceOption {
    /// Mark syscall stops so that they differ from signal stops.
    SysGood,
    Fork,
    Vfork,
    Clone,
    Exec,
    VforkDone,
    Exit,
    /// Stop on a trap of the kernel filter.
    Seccomp,
    /// Kill every traced task when the tracer dies.
    ExitKill,
}

impl TraceOption {
    /// The bit that stands for the option in the kernel's option word.
    pub open spec fn spec_bit(self) -> u32 {
        match self {
            TraceOption::SysGood => 0x1,
            TraceOption::Fork => 0x2,
            TraceOption::Vfork => 0x4,
            TraceOption::Clone => 0x8,
            TraceOption::Exec => 0x10,
            TraceOption::VforkDone => 0x20,
            TraceOption::Exit => 0x40,
            TraceOption::Seccomp => 0x80,
            TraceOption::ExitKill => 0x10_0000,
        }
    }

    /// The bit that stands for the option in the kernel's option word.
    pub fn bit(self) -> (b: u32)
        ensures
            b == self.spec_bit(),
    {
        match self {
            TraceOption::SysGood => 0x1,
            TraceOption::Fork => 0x2,
            TraceOption::Vfork => 0x4,
            TraceOption::Clone => 0x8,
            TraceOption::Exec => 0x10,
            TraceOption::VforkDone => 0x20,
            TraceOption::Exit => 0x40,
            TraceOption::Seccomp => 0x80,
            TraceOption::ExitKill => 0x10_0000,
        }
    }
}

/// The option word that the tracer sets on the first traced task.
pub open spec fn required_options() -> u32 {
    0x10_00ff
}

/// The option word that the tracer sets on the first traced task: every
/// option is in it.
pub fn trace_options() -> (word: u32)
    ensures
        word == required_options(),
        forall|option: TraceOption| word & #[trigger] option.spec_bit() == option.spec_bit(),
{
    let word: u32 = TraceOption::SysGood.bit() | TraceOption::Fork.bit() | TraceOption::Vfork.bit()
        | TraceOption::Clone.bit() | TraceOption::Exec.bit() | TraceOption::VforkDone.bit()
        | TraceOption::Exit.bit() | TraceOption::Seccomp.bit() | TraceOption::ExitKill.bit();
    proof {
        assert(0x1u32 | 0x2u32 | 0x4u32 | 0x8u32 | 0x10u32 | 0x20u32 | 0x40u32 | 0x80u32
            | 0x10_0000u32 == 0x10_00ffu32) by (bit_vector);
        assert forall|option: TraceOption|
            0x10_00ffu32 & #[trigger] option.spec_bit() == option.spec_bit() by {
            lemma_option_required(option);
        }
    }
    word
}

/// The required option word holds every option.
pub proof fn lemma_option_required(option: TraceOption)
    ensures
        required_options() & option.spec_bit() == option.spec_bit(),
{
    assert(0x10_00ffu32 & 0x1u32 == 0x1u32) by (bit_vector);
    assert(0x10_00ffu32 & 0x2u32 == 0x2u32) by (bit_vector);
    assert(0x10_00ffu32 & 0x4u32 == 0x4u32) by (bit_vector);
    assert(0x10_00ffu32 & 0x8u32 == 0x8u32) by (bit_vector);
    assert(0x10_00ffu32 & 0x10u32 == 0x10u32) by (bit_vector);
    assert(0x10_00ffu32 & 0x20u32 == 0x20u32) by (bit_vector);
    assert(0x10_00ffu32 & 0x40u32 == 0x40u32) by (bit_vector);
    assert(0x10_00ffu32 & 0x80u32 == 0x80u32) by (bit_vector);
    assert(0x10_00ffu32 & 0x10_0000u32 == 0x10_0000u32) by (bit_vector);
}

/// One of the namespaces that the launcher enters before it forks.
#[derive(Clone, Copy, Debug, PartialEq, Eq)]
pub enum Namespace {
    User,
    Pid,
    Mount,
    /// The namespace of the host name.
    Uts,
}

impl Namespace {
    /// The bit that stands for the namespace in the kernel's flag word.
    pub open spec fn spec_bit(self) -> i32 {
        match self {
            Namespace::User => 0x1000_0000,
            Namespace::Pid => 0x2000_0000,
            Namespace::Mount => 0x2_0000,
            Namespace::Uts => 0x400_0000,
        }
    }

    /// The bit that stands for the namespace in the kernel's flag word.
    pub fn bit(self) -> (b: i32)
        ensures
            b == self.spec_bit(),
    {
        match self {
            Namespace::User => 0x1000_0000,
            Namespace::Pid => 0x2000_0000,
            Namespace::Mount => 0x2_0000,
            Namespace::Uts => 0x400_0000,
        }
    }
}

/// The flag word with which the launcher leaves the namespaces it was
/// started in.
pub open spec fn required_namespaces() -> i32 {
    0x3402_0000
}

/// The flag word with which the launcher leaves the namespaces it was
/// started in: new user, pid, mount and host name namespaces, and nothing
/// else.
pub fn namespace_flags() -> (word: i32)
    ensures
        word == required_namespaces(),
        forall|namespace: Namespace|
            word & #[trigger] namespace.spec_bit() == namespace.spec_bit(),
{
    let word: i32 = Namespace::User.bit() | Namespace::Pid.bit() | Namespace::Mount.bit()
        | Namespace::Uts.bit();
    proof {
        assert(0x1000_0000i32 | 0x2000_0000i32 | 0x2_0000i32 | 0x400_0000i32 == 0x3402_0000i32)
            by (bit_vector);
        assert forall|namespace: Namespace|
            0x3402_0000i32 & #[trigger] namespace.spec_bit() == namespace.spec_bit() by {
            assert(0x3402_0000i32 & 0x1000_0000i32 == 0x1000_0000i32) by (bit_vector);
            assert(0x3402_0000i32 & 0x2000_0000i32 == 0x2000_0000i32) by (bit_vector);
            assert(0x3402_0000i32 & 0x2_0000i32 == 0x2_0000i32) by (bit_vector);
            assert(0x3402_0000i32 & 0x400_0000i32 == 0x400_0000i32) by (bit_vector);
        }
    }
    word
}

/// Why the sandbox could not be brought up.
#[derive(Clone, Copy, Debug, PartialEq, Eq)]
pub enum LaunchError {
    /// The library at this place of the preload list was not found.
    LibraryNotFound(usize),
    /// The first stop of the traced process was not the stop signal that it
    /// raises on itself.
    ExpectedSigstop,
    /// The program name, for 0, or the argument at this place, counted from
    /// 1, holds a NUL character.
    NulInArgument(usize),
}

/// Whether `stop` is the stop signal that the process `pid` raised on
/// itself.
pub open spec fn is_sigstop_of(pid: Pid, stop: Stop) -> bool {
    stop.pid == pid && (stop.event matches StopEvent::Signal { signal, .. } && signal == SIGSTOP)
}

/// Checks the first stop of the traced process: the tracer goes on only
/// if the process `pid` has stopped itself.
pub fn wait_sigstop(pid: Pid, stop: Stop) -> (r: Result<(), LaunchError>)
    ensures
        r is Ok <==> is_sigstop_of(pid, stop),
        r is Err ==> r == Err::<(), LaunchError>(LaunchError::ExpectedSigstop),
{
    match stop.event {
        StopEvent::Signal { signal, disposition: _ } => {
            if signal == SIGSTOP && stop.pid == pid {
                Ok(())
            } else {
                Err(LaunchError::ExpectedSigstop)
            }
        },
        _ => Err(LaunchError::ExpectedSigstop),
    }
}

/// One of the three processes that bring the sandbox up.
#[derive(Clone, Copy, Debug, PartialEq, Eq)]
pub enum Role {
    /// The process that the user started.
    Launcher,
    /// The first process of the new namespaces.
    Tracer,
    /// The process that becomes the traced program.
    Tracee,
}

/// One step of bringing the sandbox up.
#[derive(Clone, Copy, Debug, PartialEq, Eq)]
pub enum BootStep {
    /// Find the libraries to inject.
    ResolveLibraries,
    /// Enter new user, pid, mount and host name namespaces.
    Unshare,
    /// Fork the process that becomes the tracer.
    ForkTracer,
    /// Wait for the tracer to end and report its exit code.
    WaitTracer,
    /// Set up what lives in the new namespaces.
    InitNamespace,
    /// Fork the process that becomes the traced program.
    ForkTracee,
    /// Wait for the traced process to stop itself.
    WaitSigstop,
    /// Set the trace options on the stopped process.
    SetOptions,
    /// Let the traced process go on.
    Resume,
    /// Hand the traced process to the scheduler as its first task.
    Schedule,
    /// Forbid the process to gain privileges.
    NoNewPrivs,
    /// Switch off the randomisation of addresses.
    FixAddresses,
    /// Ask to be traced by the parent.
    TraceMe,
    /// Raise the stop signal on oneself.
    RaiseStop,
    /// Become the leader of a process group of one's own.
    SetProcessGroup,
    /// Install the kernel filter.
    InstallFilter,
    /// Replace the program image.
    Exec,
}

impl Role {
    /// The steps of the role, in order.
    pub open spec fn plan(self) -> Seq<BootStep> {
        match self {
            Role::Launcher => seq![
                BootStep::ResolveLibraries,
                BootStep::Unshare,
                BootStep::ForkTracer,
                BootStep::WaitTracer,
            ],
            Role::Tracer => seq![
                BootStep::InitNamespace,
                BootStep::ForkTracee,
                BootStep::WaitSigstop,
                BootStep::SetOptions,
                BootStep::Resume,
                BootStep::Schedule,
            ],
            Role::Tracee => seq![
                BootStep::NoNewPrivs,
                BootStep::FixAddresses,
                BootStep::TraceMe,
                BootStep::RaiseStop,
                BootStep::SetProcessGroup,
                BootStep::InstallFilter,
                BootStep::Exec,
            ],
        }
    }

    /// The role of the child that a fork of this role creates.
    pub open spec fn spec_child(self) -> Option<Role> {
        match self {
            Role::Launcher => Some(Role::Tracer),
            Role::Tracer => Some(Role::Tracee),
            Role::Tracee => None,
        }
    }

    /// The role of the child that a fork of this role creates.
    pub fn child(self) -> (r: Option<Role>)
        ensures
            r == self.spec_child(),
    {
        match self {
            Role::Launcher => Some(Role::Tracer),
            Role::Tracer => Some(Role::Tracee),
            Role::Tracee => None,
        }
    }

    /// The step to take after `done` steps of the role are done; none when
    /// the role has done all of its steps.
    pub fn step(self, done: usize) -> (r: Option<BootStep>)
        ensures
            done < self.plan().len() ==> r == Some(self.plan()[done as int]),
            done >= self.plan().len() ==> r is None,
    {
        match self {
            Role::Launcher => match done {
                0 => Some(BootStep::ResolveLibraries),
                1 => Some(BootStep::Unshare),
                2 => Some(BootStep::ForkTracer),
                3 => Some(BootStep::WaitTracer),
                _ => None,
            },
            Role::Tracer => match done {
                0 => Some(BootStep::InitNamespace),
                1 => Some(BootStep::ForkTracee),
                2 => Some(BootStep::WaitSigstop),
                3 => Some(BootStep::SetOptions),
                4 => Some(BootStep::Resume),
                5 => Some(BootStep::Schedule),
                _ => None,
            },
            Role::Tracee => match done {
                0 => Some(BootStep::NoNewPrivs),
                1 => Some(BootStep::FixAddresses),
                2 => Some(BootStep::TraceMe),
                3 => Some(BootStep::RaiseStop),
                4 => Some(BootStep::SetProcessGroup),
                5 => Some(BootStep::InstallFilter),
                6 => Some(BootStep::Exec),
                _ => None,
            },
        }
    }
}

/// The place of a step in the plan of a role, or the length of the plan
/// where the role does not take the step.
pub open spec fn place_of(role: Role, step: BootStep) -> int {
    if role.plan().contains(step) {
        role.plan().index_of(step)
    } else {
        role.plan().len() as int
    }
}

/// The order that the plans keep. The launcher looks for the libraries
/// before it does anything else, so a missing library stops it before any
/// process is forked. The traced process asks to be traced and stops itself
/// before it installs the kernel filter, and after the filter it does
/// nothing but replace its image. The tracer sets the trace options on the
/// stopped process before it lets it go on, and schedules it last.
pub proof fn lemma_plan_order()
    ensures
        Role::Launcher.plan()[0] == BootStep::ResolveLibraries,
        place_of(Role::Launcher, BootStep::ResolveLibraries) < place_of(
            Role::Launcher,
            BootStep::ForkTracer,
        ),
        place_of(Role::Tracee, BootStep::TraceMe) < place_of(Role::Tracee, BootStep::RaiseStop),
        place_of(Role::Tracee, BootStep::RaiseStop) < place_of(Role::Tracee, BootStep::InstallFilter),
        place_of(Role::Tracee, BootStep::InstallFilter) + 1 == place_of(
            Role::Tracee,
            BootStep::Exec,
        ),
        place_of(Role::Tracee, BootStep::Exec) + 1 == Role::Tracee.plan().len(),
        place_of(Role::Tracer, BootStep::WaitSigstop) < place_of(Role::Tracer, BootStep::SetOptions),
        place_of(Role::Tracer, BootStep::SetOptions) < place_of(Role::Tracer, BootStep::Resume),
        place_of(Role::Tracer, BootStep::Resume) < place_of(Role::Tracer, BootStep::Schedule),
{
    lemma_place(Role::Launcher, 0);
    lemma_place(Role::Launcher, 2);
    lemma_place(Role::Tracee, 2);
    lemma_place(Role::Tracee, 3);
    lemma_place(Role::Tracee, 5);
    lemma_place(Role::Tracee, 6);
    lemma_place(Role::Tracer, 2);
    lemma_place(Role::Tracer, 3);
    lemma_place(Role::Tracer, 4);
    lemma_place(Role::Tracer, 5);
}

/// No plan takes a step twice, so a step has one place in it.
pub proof fn lemma_place(role: Role, at: int)
    requires
        0 <= at < role.plan().len(),
    ensures
        place_of(role, role.plan()[at]) == at,
{
    let plan = role.plan();
    let step = plan[at];
    assert(plan.contains(step));
    let found = plan.index_of(step);
    assert(0 <= found < plan.len() && plan[found] == step);
    assert(forall|i: int, j: int| 0 <= i < j < plan.len() ==> plan[i] != plan[j]);
}

} // verus!
