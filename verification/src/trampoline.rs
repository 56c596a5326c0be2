//! The contract between the tracer and the code injected into a traced
//! process: the fixed slots that the injected code fills when it is loaded,
//! the two entry points for syscalls, and the interception entry point.

use vstd::prelude::*;
use crate::consts::{
    NO_SUCH_SYSCALL, PAGE_SIZE, SLOT_SIZE, SYSCALL_TRACED, SYSCALL_UNTRACED, TRAMPOLINE_SLOTS_BASE,
};
use crate::counter::{EntryPoint, ProcessState, ThreadState};
use crate::task::SyscallInfo;

verus! {

/// One of the fixed slots.
#[derive(Clone, Copy, Debug, PartialEq, Eq)]
pub enum Slot {
    /// The address of the interception entry point.
    Hook,
    /// The flag that tells the tracer that interception is armed.
    Ready,
    /// The address of the shared process state; the tracer fills it.
    State,
    /// The address of the helper for remote syscalls.
    SyscallHelper,
    /// The address of the helper for remote function calls.
    RpcHelper,
}

impl Slot {
    /// The place of the slot in the page of slots.
    pub open spec fn index(self) -> int {
        match self {
            Slot::Hook => 0,
            Slot::Ready => 1,
            Slot::State => 2,
            Slot::SyscallHelper => 3,
            Slot::RpcHelper => 4,
        }
    }

    /// The fixed address of the slot.
    pub open spec fn spec_address(self) -> int {
        TRAMPOLINE_SLOTS_BASE + self.index() * SLOT_SIZE
    }

    /// The fixed address of the slot.
    pub fn address(self) -> (a: u64)
        ensures
            a == self.spec_address(),
    {
        match self {
            Slot::Hook => TRAMPOLINE_SLOTS_BASE,
            Slot::Ready => TRAMPOLINE_SLOTS_BASE + SLOT_SIZE,
            Slot::State => TRAMPOLINE_SLOTS_BASE + 2 * SLOT_SIZE,
            Slot::SyscallHelper => TRAMPOLINE_SLOTS_BASE + 3 * SLOT_SIZE,
            Slot::RpcHelper => TRAMPOLINE_SLOTS_BASE + 4 * SLOT_SIZE,
        }
    }
}

/// The slots do not overlap, each is aligned to its size, and all lie in
/// the one page that starts at the base.
pub proof fn lemma_slots_apart(a: Slot, b: Slot)
    ensures
        a != b ==> a.spec_address() + SLOT_SIZE <= b.spec_address() || b.spec_address() + SLOT_SIZE
            <= a.spec_address(),
        a.spec_address() % (SLOT_SIZE as int) == 0,
        TRAMPOLINE_SLOTS_BASE <= a.spec_address(),
        a.spec_address() + SLOT_SIZE <= TRAMPOLINE_SLOTS_BASE + PAGE_SIZE,
{
}

/// What the fixed slots of one process image hold; 0 stands for a slot
/// that nobody has written.
#[derive(Clone, Copy, Debug, PartialEq, Eq)]
pub struct ContractSlots {
    pub hook: u64,
    pub ready: u64,
    pub state: u64,
    pub syscall_helper: u64,
    pub rpc_helper: u64,
}

/// The addresses that the injected code publishes when it is loaded.
#[derive(Clone, Copy, Debug, PartialEq, Eq)]
pub struct EntryAddresses {
    pub hook: u64,
    pub syscall_helper: u64,
    pub rpc_helper: u64,
}

impl ContractSlots {
    /// The slots of an image that has just been loaded: nothing written.
    pub open spec fn blank() -> ContractSlots {
        ContractSlots { hook: 0, ready: 0, state: 0, syscall_helper: 0, rpc_helper: 0 }
    }

    /// Whether interception is armed.
    pub open spec fn is_armed(self) -> bool {
        self.ready == 1
    }

    /// The slots after the tracer has left the address of the process
    /// state for the injected code: only a blank state slot of an unarmed
    /// contract is written.
    pub open spec fn populated(self, state: u64) -> ContractSlots {
        if self.ready == 0 && self.state == 0 {
            ContractSlots { state, ..self }
        } else {
            self
        }
    }

    /// The slots after the injected code's initializer ran: the entry
    /// addresses are published and the ready flag is set. An armed contract
    /// stays as it is.
    pub open spec fn initialized(self, entries: EntryAddresses) -> ContractSlots {
        if self.ready == 0 {
            ContractSlots {
                hook: entries.hook,
                ready: 1,
                state: self.state,
                syscall_helper: entries.syscall_helper,
                rpc_helper: entries.rpc_helper,
            }
        } else {
            self
        }
    }

    pub fn new() -> (slots: ContractSlots)
        ensures
            slots == ContractSlots::blank(),
            !slots.is_armed(),
    {
        ContractSlots { hook: 0, ready: 0, state: 0, syscall_helper: 0, rpc_helper: 0 }
    }

    pub fn armed(&self) -> (b: bool)
        ensures
            b == self.is_armed(),
    {
        self.ready == 1
    }

    /// The tracer leaves the address of the process state.
    pub fn populate(&mut self, state: u64)
        ensures
            *final(self) == old(self).populated(state),
    {
        if self.ready == 0 && self.state == 0 {
            self.state = state;
        }
    }
}

/// A write to a slot never changes what an armed contract holds, and the
/// ready flag only ever goes from unset to set.
pub proof fn lemma_slots_write_once(slots: ContractSlots, state: u64, entries: EntryAddresses)
    ensures
        slots.is_armed() ==> slots.populated(state) == slots && slots.initialized(entries)
            == slots,
        slots.ready == 0 ==> slots.initialized(entries).is_armed(),
        slots.populated(state).ready == slots.ready,
        slots.state != 0 ==> slots.populated(state).state == slots.state,
        slots.initialized(entries).state == slots.state,
{
}

/// What the injected code of one process image has registered: the slots
/// and, once its initializer has found one, the shared process state that
/// the interception entry point works on.
#[derive(Clone, Copy, Debug, PartialEq, Eq)]
pub struct Registration {
    pub slots: ContractSlots,
    pub pstate: Option<ProcessState>,
}

impl Registration {
    /// The registration of an image whose initializer has not run.
    pub fn new(slots: ContractSlots) -> (r: Registration)
        ensures
            r == (Registration { slots, pstate: None }),
    {
        Registration { slots, pstate: None }
    }

    /// The registration after the initializer ran with the process state
    /// that it found: first the state that the tracer left is picked up,
    /// then the entry addresses are published, then the ready flag is set.
    /// Without an address from the tracer no state is registered. An armed
    /// contract stays as it is.
    pub open spec fn initialized(self, entries: EntryAddresses, found: ProcessState) -> Registration {
        if self.slots.ready == 0 {
            Registration {
                slots: self.slots.initialized(entries),
                pstate: if self.slots.state != 0 {
                    Some(found)
                } else {
                    None
                },
            }
        } else {
            self
        }
    }

    /// The initializer that runs once when the injected code is loaded.
    pub fn trampoline_ctor(&mut self, entries: EntryAddresses, found: ProcessState)
        ensures
            *final(self) == old(self).initialized(entries, found),
            old(self).slots.ready == 0 ==> final(self).slots.is_armed(),
    {
        if self.slots.ready == 0 {
            self.pstate = if self.slots.state != 0 {
                Some(found)
            } else {
                None
            };
            self.slots.hook = entries.hook;
            self.slots.syscall_helper = entries.syscall_helper;
            self.slots.rpc_helper = entries.rpc_helper;
            self.slots.ready = 1;
        }
    }

    /// Forgets everything: the program image was replaced, and the new
    /// image's initializer has to arm the contract again.
    pub fn invalidate(&mut self)
        ensures
            *final(self) == (Registration { slots: ContractSlots::blank(), pstate: None }),
            !final(self).slots.is_armed(),
    {
        self.slots = ContractSlots::new();
        self.pstate = None;
    }
}

/// One syscall as it is handed to the kernel: the number, the six
/// arguments, and the marker for the kernel filter in a slot of its own.
#[derive(Clone, Copy, Debug, PartialEq, Eq)]
pub struct RawSyscall {
    pub no: i32,
    pub args: [i64; 6],
    pub marker: u64,
}

impl EntryPoint {
    /// The marker that tells the kernel filter which entry a call came
    /// through.
    pub open spec fn marker(self) -> u64 {
        match self {
            EntryPoint::Traced => SYSCALL_TRACED,
            EntryPoint::Untraced => SYSCALL_UNTRACED,
        }
    }
}

/// The syscall as the traced entry hands it to the kernel: tagged so that
/// the kernel filter always traps it.
pub fn traced_syscall(
    syscallno: i32,
    arg0: i64,
    arg1: i64,
    arg2: i64,
    arg3: i64,
    arg4: i64,
    arg5: i64,
) -> (call: RawSyscall)
    ensures
        call == (RawSyscall {
            no: syscallno,
            args: [arg0, arg1, arg2, arg3, arg4, arg5],
            marker: EntryPoint::Traced.marker(),
        }),
{
    RawSyscall { no: syscallno, args: [arg0, arg1, arg2, arg3, arg4, arg5], marker: SYSCALL_TRACED }
}

/// The syscall as the untraced entry hands it to the kernel: tagged so that
/// the kernel filter lets it pass.
pub fn untraced_syscall(
    syscallno: i32,
    arg0: i64,
    arg1: i64,
    arg2: i64,
    arg3: i64,
    arg4: i64,
    arg5: i64,
) -> (call: RawSyscall)
    ensures
        call == (RawSyscall {
            no: syscallno,
            args: [arg0, arg1, arg2, arg3, arg4, arg5],
            marker: EntryPoint::Untraced.marker(),
        }),
{
    RawSyscall {
        no: syscallno,
        args: [arg0, arg1, arg2, arg3, arg4, arg5],
        marker: SYSCALL_UNTRACED,
    }
}

impl SyscallInfo {
    /// The syscall number as the callback takes it.
    pub open spec fn number(self) -> i32 {
        self.no as i32
    }

    /// The six arguments as the callback takes them.
    pub open spec fn arguments(self) -> [i64; 6] {
        [
            self.args[0] as i64,
            self.args[1] as i64,
            self.args[2] as i64,
            self.args[3] as i64,
            self.args[4] as i64,
            self.args[5] as i64,
        ]
    }
}

/// The interception entry point. With a registered process state the
/// callback is called with that state, a fresh scratch record, the syscall
/// number and the six arguments of `info`; the number it returns is the
/// result of the syscall, and the state it returns is kept. Without a
/// registered state nothing runs and the result is the "no such syscall"
/// error.
pub fn syscall_hook<F>(registration: &mut Registration, info: &SyscallInfo, callback: F) -> (ret:
    i64) where F: FnOnce(ProcessState, ThreadState, i32, [i64; 6]) -> (ProcessState, i64)
    requires
        old(registration).pstate matches Some(p) ==> callback.requires(
            (p, ThreadState::zeroed(), info.number(), info.arguments()),
        ),
    ensures
        final(registration).slots == old(registration).slots,
        match old(registration).pstate {
            None => ret == NO_SUCH_SYSCALL && final(registration).pstate is None,
            Some(p) => final(registration).pstate matches Some(after) && callback.ensures(
                (p, ThreadState::zeroed(), info.number(), info.arguments()),
                (after, ret),
            ),
        },
{
    match registration.pstate {
        Some(pstate) => {
            let args: [i64; 6] = [
                info.args[0] as i64,
                info.args[1] as i64,
                info.args[2] as i64,
                info.args[3] as i64,
                info.args[4] as i64,
                info.args[5] as i64,
            ];
            let (after, ret) = callback(pstate, ThreadState::new(), info.no as i32, args);
            registration.pstate = Some(after);
            ret
        },
        None => NO_SUCH_SYSCALL,
    }
}

} // verus!
