//! The counters that the injected code keeps for its process.

use vstd::prelude::*;

verus! {

/// An event that the injected code takes note of.
#[derive(Clone, Copy, Debug, PartialEq, Eq)]
pub enum NoteInfo {
    /// A syscall enters through the captured path.
    SyscallEntry,
}

/// The counters that the tracer reads from outside.
#[derive(Clone, Copy, Debug, PartialEq, Eq)]
pub struct SyscallStats {
    /// Syscalls that the injected code has seen.
    pub nr_syscalls: u64,
    /// Syscalls that went the captured, slow path.
    pub nr_syscalls_captured: u64,
}

/// What the injected code and the tracer share for one traced process.
#[derive(Clone, Copy, Debug, PartialEq, Eq)]
pub struct ProcessState {
    /// The running count of syscalls.
    pub nr_syscalls: u64,
    pub stats: SyscallStats,
    /// The copy of the running count that the tracer can see without a
    /// syscall.
    pub pstate_store: u64,
}

/// Scratch for one intercepted call; it does not outlive the call.
#[derive(Clone, Copy, Debug, PartialEq, Eq)]
pub struct ThreadState {
    pub scratch: u64,
}

impl ThreadState {
    pub open spec fn zeroed() -> ThreadState {
        ThreadState { scratch: 0 }
    }

    /// A fresh scratch record.
    pub fn new() -> (t: ThreadState)
        ensures
            t == ThreadState::zeroed(),
    {
        ThreadState { scratch: 0 }
    }
}

/// How a syscall of the traced program reaches the kernel.
#[derive(Clone, Copy, Debug, PartialEq, Eq)]
pub enum EntryPoint {
    /// Through the entry that the kernel filter always traps.
    Traced,
    /// Through the entry that the kernel filter lets pass.
    Untraced,
}

impl ProcessState {
    pub open spec fn initial() -> ProcessState {
        ProcessState {
            nr_syscalls: 0,
            stats: SyscallStats { nr_syscalls: 0, nr_syscalls_captured: 0 },
            pstate_store: 0,
        }
    }

    /// The counters agree: both totals are the same, the copy for the
    /// tracer shows the total, and no more calls were captured than seen.
    pub open spec fn wf(self) -> bool {
        &&& self.stats.nr_syscalls == self.nr_syscalls
        &&& self.pstate_store == self.nr_syscalls
        &&& self.stats.nr_syscalls_captured <= self.nr_syscalls
    }

    /// The state after one more syscall was seen: captured, or let pass.
    pub open spec fn counted(self, captured: bool) -> ProcessState {
        ProcessState {
            nr_syscalls: (self.nr_syscalls + 1) as u64,
            stats: SyscallStats {
                nr_syscalls: (self.stats.nr_syscalls + 1) as u64,
                nr_syscalls_captured: if captured {
                    (self.stats.nr_syscalls_captured + 1) as u64
                } else {
                    self.stats.nr_syscalls_captured
                },
            },
            pstate_store: (self.nr_syscalls + 1) as u64,
        }
    }

    /// The state after the program made `calls`, each through the given
    /// entry point. A call through the untraced entry is seen but not
    /// captured.
    pub open spec fn after_calls(self, calls: Seq<EntryPoint>) -> ProcessState
        decreases calls.len(),
    {
        if calls.len() == 0 {
            self
        } else {
            self.after_calls(calls.drop_last()).counted(calls.last() is Traced)
        }
    }

    /// The state of a process that has made no syscall yet.
    pub fn new() -> (p: ProcessState)
        ensures
            p == ProcessState::initial(),
            p.wf(),
    {
        ProcessState {
            nr_syscalls: 0,
            stats: SyscallStats { nr_syscalls: 0, nr_syscalls_captured: 0 },
            pstate_store: 0,
        }
    }

    /// Whether one more syscall can be counted: the counters agree and the
    /// total is not at its limit.
    pub fn can_count(&self) -> (b: bool)
        ensures
            b == (self.wf() && self.nr_syscalls < u64::MAX),
    {
        self.stats.nr_syscalls == self.nr_syscalls && self.pstate_store == self.nr_syscalls
            && self.stats.nr_syscalls_captured <= self.nr_syscalls && self.nr_syscalls < u64::MAX
    }

    /// Takes note of a syscall that goes on through the untraced entry: it
    /// is seen, not captured.
    pub fn note_untraced(&mut self)
        requires
            old(self).wf(),
            old(self).nr_syscalls < u64::MAX,
        ensures
            *final(self) == old(self).counted(false),
            final(self).wf(),
    {
        self.nr_syscalls += 1;
        self.stats.nr_syscalls += 1;
        self.pstate_store = self.nr_syscalls;
    }

    /// Takes note of one syscall that goes on through `entry`.
    pub fn note_entry(&mut self, no: i32, entry: EntryPoint)
        requires
            old(self).wf(),
            old(self).nr_syscalls < u64::MAX,
        ensures
            *final(self) == old(self).counted(entry is Traced),
            final(self).wf(),
    {
        match entry {
            EntryPoint::Traced => note_syscall(self, no, NoteInfo::SyscallEntry),
            EntryPoint::Untraced => self.note_untraced(),
        }
    }
}

/// Takes note of a syscall event: a syscall that enters through the
/// captured path is counted as seen and as captured, and the new total is
/// copied to where the tracer sees it.
pub fn note_syscall(p: &mut ProcessState, no: i32, note: NoteInfo)
    requires
        old(p).wf(),
        old(p).nr_syscalls < u64::MAX,
    ensures
        *final(p) == old(p).counted(true),
        final(p).wf(),
{
    match note {
        NoteInfo::SyscallEntry => {
            p.nr_syscalls += 1;
            p.stats.nr_syscalls += 1;
            p.stats.nr_syscalls_captured += 1;
            p.pstate_store = p.nr_syscalls;
        },
    }
}

/// What the counters show after any calls, as long as the total fits: the
/// total is the number of calls more than before, and the counters agree.
pub proof fn lemma_calls_counted(p: ProcessState, calls: Seq<EntryPoint>)
    requires
        p.wf(),
        p.nr_syscalls + calls.len() <= u64::MAX,
    ensures
        p.after_calls(calls).wf(),
        p.after_calls(calls).nr_syscalls == p.nr_syscalls + calls.len(),
        p.after_calls(calls).stats.nr_syscalls_captured >= p.stats.nr_syscalls_captured,
    decreases calls.len(),
{
    if calls.len() > 0 {
        lemma_calls_counted(p, calls.drop_last());
    }
}

/// A program that sends every call through the traced entry has as many
/// calls captured as seen.
pub proof fn lemma_all_traced_all_captured(calls: Seq<EntryPoint>)
    requires
        calls.len() <= u64::MAX,
        forall|i: int| 0 <= i < calls.len() ==> calls[i] is Traced,
    ensures
        ProcessState::initial().after_calls(calls).stats.nr_syscalls_captured
            == ProcessState::initial().after_calls(calls).stats.nr_syscalls,
        ProcessState::initial().after_calls(calls).stats.nr_syscalls == calls.len(),
    decreases calls.len(),
{
    if calls.len() > 0 {
        lemma_all_traced_all_captured(calls.drop_last());
        lemma_calls_counted(ProcessState::initial(), calls.drop_last());
    }
}

/// A program that uses the untraced entry only has no call captured,
/// however many calls it makes.
pub proof fn lemma_all_untraced_none_captured(calls: Seq<EntryPoint>)
    requires
        forall|i: int| 0 <= i < calls.len() ==> calls[i] is Untraced,
    ensures
        ProcessState::initial().after_calls(calls).stats.nr_syscalls_captured == 0,
    decreases calls.len(),
{
    if calls.len() > 0 {
        lemma_all_untraced_none_captured(calls.drop_last());
    }
}

} // verus!
