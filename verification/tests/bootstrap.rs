use systrace::bootstrap::{
    filter_verdict, namespace_flags, trace_options, wait_sigstop, BootStep, FilterVerdict,
    LaunchError, Namespace, Role, TraceOption,
};
use systrace::task::{SignalDecision, Stop, StopEvent};

#[test]
fn filter_lets_exec_and_untraced_calls_pass() {
    assert_eq!(filter_verdict(59, 0), FilterVerdict::Allow);
    assert_eq!(filter_verdict(59, 0x7000_0004), FilterVerdict::Allow);
    assert_eq!(filter_verdict(1, 0x7000_0000), FilterVerdict::Allow);
    assert_eq!(filter_verdict(1, 0x7000_0004), FilterVerdict::Trap);
    assert_eq!(filter_verdict(1, 0), FilterVerdict::Trap);
    assert_eq!(filter_verdict(60, 0x7000_0002), FilterVerdict::Trap);
}

#[test]
fn trace_options_hold_every_option() {
    let word = trace_options();
    assert_eq!(word, 0x10_00ff);
    for option in [
        TraceOption::SysGood,
        TraceOption::Fork,
        TraceOption::Vfork,
        TraceOption::Clone,
        TraceOption::Exec,
        TraceOption::VforkDone,
        TraceOption::Exit,
        TraceOption::Seccomp,
        TraceOption::ExitKill,
    ] {
        assert_eq!(word & option.bit(), option.bit());
    }
    assert_eq!(TraceOption::ExitKill.bit(), 0x10_0000);
    assert_eq!(TraceOption::Seccomp.bit(), 0x80);
    assert_eq!(TraceOption::SysGood.bit(), 1);
}

#[test]
fn handshake_wants_the_stop_signal_of_the_child() {
    let stop = |pid, signal| Stop {
        pid,
        event: StopEvent::Signal { signal, disposition: SignalDecision::Forward },
    };
    assert_eq!(wait_sigstop(5, stop(5, 19)), Ok(()));
    assert_eq!(wait_sigstop(5, stop(6, 19)), Err(LaunchError::ExpectedSigstop));
    assert_eq!(wait_sigstop(5, stop(5, 17)), Err(LaunchError::ExpectedSigstop));
    assert_eq!(
        wait_sigstop(5, Stop { pid: 5, event: StopEvent::Exited { code: 0 } }),
        Err(LaunchError::ExpectedSigstop)
    );
    assert_eq!(
        wait_sigstop(5, Stop { pid: 5, event: StopEvent::GroupStop { signal: 19 } }),
        Err(LaunchError::ExpectedSigstop)
    );
}

#[test]
fn launcher_looks_for_libraries_before_it_forks() {
    assert_eq!(Role::Launcher.step(0), Some(BootStep::ResolveLibraries));
    assert_eq!(Role::Launcher.step(1), Some(BootStep::Unshare));
    assert_eq!(Role::Launcher.step(2), Some(BootStep::ForkTracer));
    assert_eq!(Role::Launcher.step(3), Some(BootStep::WaitTracer));
    assert_eq!(Role::Launcher.step(4), None);
}

#[test]
fn tracee_installs_the_filter_right_before_exec() {
    let plan: Vec<BootStep> = (0..7).map(|i| Role::Tracee.step(i).unwrap()).collect();
    assert_eq!(
        plan,
        vec![
            BootStep::NoNewPrivs,
            BootStep::FixAddresses,
            BootStep::TraceMe,
            BootStep::RaiseStop,
            BootStep::SetProcessGroup,
            BootStep::InstallFilter,
            BootStep::Exec,
        ]
    );
    assert_eq!(Role::Tracee.step(7), None);
}

#[test]
fn tracer_sets_options_before_it_resumes() {
    let plan: Vec<BootStep> = (0..6).map(|i| Role::Tracer.step(i).unwrap()).collect();
    assert_eq!(
        plan,
        vec![
            BootStep::InitNamespace,
            BootStep::ForkTracee,
            BootStep::WaitSigstop,
            BootStep::SetOptions,
            BootStep::Resume,
            BootStep::Schedule,
        ]
    );
    assert_eq!(Role::Tracer.step(usize::MAX), None);
}

#[test]
fn each_fork_creates_the_next_role() {
    assert_eq!(Role::Launcher.child(), Some(Role::Tracer));
    assert_eq!(Role::Tracer.child(), Some(Role::Tracee));
    assert_eq!(Role::Tracee.child(), None);
}

#[test]
fn launcher_enters_four_namespaces() {
    let word = namespace_flags();
    assert_eq!(word, 0x3402_0000);
    assert_eq!(Namespace::User.bit(), 0x1000_0000);
    assert_eq!(Namespace::Pid.bit(), 0x2000_0000);
    assert_eq!(Namespace::Mount.bit(), 0x2_0000);
    assert_eq!(Namespace::Uts.bit(), 0x400_0000);
    for namespace in [Namespace::User, Namespace::Pid, Namespace::Mount, Namespace::Uts] {
        assert_eq!(word & namespace.bit(), namespace.bit());
    }
}
