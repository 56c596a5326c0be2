use systrace::counter::{note_syscall, EntryPoint, NoteInfo, ProcessState, SyscallStats, ThreadState};
use systrace::task::SyscallInfo;
use systrace::trampoline::{
    syscall_hook, traced_syscall, untraced_syscall, ContractSlots, EntryAddresses, RawSyscall,
    Registration, Slot,
};

fn answer_zero(p: ProcessState, _t: ThreadState, _no: i32, _args: [i64; 6]) -> (ProcessState, i64) {
    (p, 0)
}

fn count_and_answer(p: ProcessState, t: ThreadState, no: i32, args: [i64; 6]) -> (ProcessState, i64) {
    assert_eq!(t, ThreadState { scratch: 0 });
    assert_eq!(no, 39);
    assert_eq!(args, [-1, 2, 3, 4, 5, i64::MIN]);
    let mut p = p;
    note_syscall(&mut p, no, NoteInfo::SyscallEntry);
    (p, args[1] + 40)
}

fn entries() -> EntryAddresses {
    EntryAddresses { hook: 0x7000_0100, syscall_helper: 0x7000_0200, rpc_helper: 0x7000_0300 }
}

#[test]
fn note_syscall_counts_and_mirrors() {
    let mut p = ProcessState::new();
    note_syscall(&mut p, 1, NoteInfo::SyscallEntry);
    note_syscall(&mut p, 60, NoteInfo::SyscallEntry);
    assert_eq!(
        p,
        ProcessState {
            nr_syscalls: 2,
            stats: SyscallStats { nr_syscalls: 2, nr_syscalls_captured: 2 },
            pstate_store: 2,
        }
    );
}

#[test]
fn traced_calls_are_all_captured() {
    let mut p = ProcessState::new();
    for no in 0..5 {
        p.note_entry(no, EntryPoint::Traced);
    }
    assert_eq!(p.stats.nr_syscalls, 5);
    assert_eq!(p.stats.nr_syscalls_captured, p.stats.nr_syscalls);
    assert_eq!(p.pstate_store, 5);
}

#[test]
fn untraced_calls_are_never_captured() {
    let mut p = ProcessState::new();
    for no in 0..1000 {
        p.note_entry(no, EntryPoint::Untraced);
    }
    assert_eq!(p.stats.nr_syscalls_captured, 0);
    assert_eq!(p.stats.nr_syscalls, 1000);
    assert_eq!(p.nr_syscalls, 1000);
    p.note_untraced();
    assert_eq!(p.nr_syscalls, 1001);
    assert_eq!(p.stats.nr_syscalls_captured, 0);
}

#[test]
fn mixed_calls_count_apart() {
    let mut p = ProcessState::new();
    p.note_entry(1, EntryPoint::Traced);
    p.note_entry(1, EntryPoint::Untraced);
    p.note_entry(1, EntryPoint::Traced);
    assert_eq!(p.stats, SyscallStats { nr_syscalls: 3, nr_syscalls_captured: 2 });
}

#[test]
fn entry_points_carry_their_markers() {
    assert_eq!(
        traced_syscall(1, 2, 3, 4, 5, 6, 7),
        RawSyscall { no: 1, args: [2, 3, 4, 5, 6, 7], marker: 0x7000_0004 }
    );
    assert_eq!(
        untraced_syscall(-1, -2, 3, 4, 5, 6, 7),
        RawSyscall { no: -1, args: [-2, 3, 4, 5, 6, 7], marker: 0x7000_0000 }
    );
}

#[test]
fn hook_fails_closed_without_state() {
    let mut registration = Registration::new(ContractSlots::new());
    let info = SyscallInfo { no: 1, args: [0; 6] };
    let ret = syscall_hook(&mut registration, &info, answer_zero);
    assert_eq!(ret, -38);
    assert_eq!(registration, Registration::new(ContractSlots::new()));
}

#[test]
fn hook_fails_closed_when_tracer_left_no_state() {
    let mut registration = Registration::new(ContractSlots::new());
    registration.trampoline_ctor(entries(), ProcessState::new());
    assert!(registration.slots.armed());
    assert_eq!(registration.pstate, None);
    let info = SyscallInfo { no: 1, args: [0; 6] };
    let ret = syscall_hook(&mut registration, &info, answer_zero);
    assert_eq!(ret, -38);
}

#[test]
fn hook_hands_the_call_to_the_callback() {
    let mut slots = ContractSlots::new();
    slots.populate(0x7020_0000);
    let mut registration = Registration::new(slots);
    registration.trampoline_ctor(entries(), ProcessState::new());
    assert_eq!(
        registration.slots,
        ContractSlots {
            hook: 0x7000_0100,
            ready: 1,
            state: 0x7020_0000,
            syscall_helper: 0x7000_0200,
            rpc_helper: 0x7000_0300,
        }
    );
    let info = SyscallInfo {
        no: 0x1_0000_0027,
        args: [u64::MAX, 2, 3, 4, 5, 0x8000_0000_0000_0000],
    };
    let ret = syscall_hook(&mut registration, &info, count_and_answer);
    assert_eq!(ret, 42);
    assert_eq!(registration.pstate.unwrap().nr_syscalls, 1);
    assert_eq!(registration.slots.ready, 1);
}

#[test]
fn slots_are_written_once() {
    let mut slots = ContractSlots::new();
    assert!(!slots.armed());
    slots.populate(0x10);
    slots.populate(0x20);
    assert_eq!(slots.state, 0x10);
    let mut registration = Registration::new(slots);
    registration.trampoline_ctor(entries(), ProcessState::new());
    let armed = registration;
    let mut other = ProcessState::new();
    other.note_untraced();
    registration.trampoline_ctor(
        EntryAddresses { hook: 1, syscall_helper: 2, rpc_helper: 3 },
        other,
    );
    assert_eq!(registration, armed);
    registration.slots.populate(0x30);
    assert_eq!(registration, armed);
}

#[test]
fn exec_wipes_the_registration() {
    let mut slots = ContractSlots::new();
    slots.populate(0x10);
    let mut registration = Registration::new(slots);
    registration.trampoline_ctor(entries(), ProcessState::new());
    registration.invalidate();
    assert_eq!(registration, Registration::new(ContractSlots::new()));
    assert!(!registration.slots.armed());
    let info = SyscallInfo { no: 1, args: [0; 6] };
    let ret = syscall_hook(&mut registration, &info, answer_zero);
    assert_eq!(ret, -38);
}

#[test]
fn slot_addresses_are_fixed() {
    assert_eq!(Slot::Hook.address(), 0x7000_1000);
    assert_eq!(Slot::Ready.address(), 0x7000_1008);
    assert_eq!(Slot::State.address(), 0x7000_1010);
    assert_eq!(Slot::SyscallHelper.address(), 0x7000_1018);
    assert_eq!(Slot::RpcHelper.address(), 0x7000_1020);
}

#[test]
fn counting_stops_at_the_limit() {
    let mut p = ProcessState::new();
    assert!(p.can_count());
    p.note_untraced();
    assert!(p.can_count());
    let full = ProcessState {
        nr_syscalls: u64::MAX,
        stats: SyscallStats { nr_syscalls: u64::MAX, nr_syscalls_captured: 0 },
        pstate_store: u64::MAX,
    };
    assert!(!full.can_count());
    let torn = ProcessState {
        nr_syscalls: 2,
        stats: SyscallStats { nr_syscalls: 1, nr_syscalls_captured: 0 },
        pstate_store: 2,
    };
    assert!(!torn.can_count());
}
