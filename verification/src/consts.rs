//! Fixed values shared between the tracer and the code injected into a traced
//! process.

use vstd::prelude::*;

verus! {

/// Marker carried by a syscall issued through the untraced entry point: the
/// kernel filter lets such a call run directly.
pub const SYSCALL_UNTRACED: u64 = 0x7000_0000;

/// Marker carried by a syscall issued through the traced entry point: the
/// kernel filter always traps such a call.
pub const SYSCALL_TRACED: u64 = 0x7000_0004;

/// Size of one page of the traced process.
pub const PAGE_SIZE: u64 = 0x1000;

/// Value returned to the caller when no handler can take a syscall: the
/// negated "no such syscall" error number.
pub const NO_SUCH_SYSCALL: i64 = -38;

/// Start of the page of fixed slots through which the tracer and the
/// injected code find each other.
pub const TRAMPOLINE_SLOTS_BASE: u64 = 0x7000_1000;

/// Size of one slot.
pub const SLOT_SIZE: u64 = 8;

/// Number of the syscall that replaces the program image.
pub const SYS_EXECVE: u64 = 59;

/// Number of the signal that stops a process unconditionally.
pub const SIGSTOP: i32 = 19;

/// Number of the signal that kills a process unconditionally.
pub const SIGKILL: i32 = 9;

/// Bit set in an exit code that reports death by signal.
pub const SIGNAL_EXIT_BIT: i32 = 0x80;

} // verus!
