//! The table of patchable call sites that the tracer is given: where in the
//! injected library the code for each kind of call site starts.

use vstd::prelude::*;
use crate::consts::PAGE_SIZE;

verus! {

/// What stands at a call site that can be patched.
#[derive(Clone, Copy, Debug, PartialEq, Eq)]
pub enum CallSiteKind {
    /// The syscall instruction is followed by one instruction that moves
    /// with it.
    SingleInstruction,
    /// The syscall instruction is followed by several instructions that
    /// move with it.
    MultiInstruction,
}

/// One entry of the table: the offset of the code in the injected library
/// and the kind of call site it serves.
#[derive(Clone, Copy, Debug, PartialEq, Eq)]
pub struct SyscallHook {
    pub offset: u64,
    pub kind: CallSiteKind,
}

/// Why a table of hooks cannot be used.
#[derive(Clone, Copy, Debug, PartialEq, Eq)]
pub enum HookError {
    /// The table has no entry.
    Empty,
    /// The entry at this place lies outside the first page of the library.
    OutsideFirstPage(usize),
}

/// Whether every entry lies within the first page of the library.
pub open spec fn within_first_page(hooks: Seq<SyscallHook>) -> bool {
    forall|i: int| 0 <= i < hooks.len() ==> (#[trigger] hooks[i]).offset < PAGE_SIZE
}

/// A table of hooks that the tracer can use: it has an entry, and every
/// entry lies within the first page of the library.
pub struct HookTable {
    hooks: Vec<SyscallHook>,
}

impl View for HookTable {
    type V = Seq<SyscallHook>;

    closed spec fn view(&self) -> Seq<SyscallHook> {
        self.hooks@
    }
}

impl HookTable {
    #[verifier::type_invariant]
    spec fn usable(self) -> bool {
        self.hooks@.len() > 0 && within_first_page(self.hooks@)
    }

    /// Takes the entries that were resolved from the injected library. An
    /// empty table is refused, and so is one with an entry outside the first
    /// page; the error names the first such entry.
    pub fn from_entries(entries: Vec<SyscallHook>) -> (r: Result<HookTable, HookError>)
        ensures
            match r {
                Ok(table) => table@ == entries@ && entries@.len() > 0 && within_first_page(
                    entries@,
                ),
                Err(HookError::Empty) => entries@.len() == 0,
                Err(HookError::OutsideFirstPage(at)) => at < entries@.len() && entries@[at as int].offset
                    >= PAGE_SIZE && within_first_page(entries@.take(at as int)),
            },
    {
        if entries.len() == 0 {
            return Err(HookError::Empty);
        }
        let mut i: usize = 0;
        while i < entries.len()
            invariant
                i <= entries.len(),
                within_first_page(entries@.take(i as int)),
            decreases entries.len() - i,
        {
            if entries[i].offset >= PAGE_SIZE {
                return Err(HookError::OutsideFirstPage(i));
            }
            proof {
                assert forall|k: int| 0 <= k < i + 1 implies (#[trigger] entries@.take(
                    i + 1,
                )[k]).offset < PAGE_SIZE by {
                    if k < i {
                        assert(entries@.take(i as int)[k] == entries@[k]);
                    }
                }
            }
            i += 1;
        }
        assert(entries@.take(entries@.len() as int) =~= entries@);
        Ok(HookTable { hooks: entries })
    }

    /// The number of entries; there is at least one.
    pub fn len(&self) -> (n: usize)
        ensures
            n == self@.len(),
            n > 0,
    {
        proof {
            use_type_invariant(self);
        }
        self.hooks.len()
    }

    /// The entry at the place, if there is one; its offset lies within the
    /// first page.
    pub fn get(&self, at: usize) -> (r: Option<SyscallHook>)
        ensures
            at < self@.len() ==> r == Some(self@[at as int]) && self@[at as int].offset
                < PAGE_SIZE,
            at >= self@.len() ==> r is None,
    {
        proof {
            use_type_invariant(self);
        }
        if at < self.hooks.len() {
            Some(self.hooks[at])
        } else {
            None
        }
    }

    /// The address of the entry at the place in a process that has the
    /// library loaded at `base`; none where there is no such entry or the
    /// address does not fit.
    pub fn resolve(&self, base: u64, at: usize) -> (r: Option<u64>)
        ensures
            r is Some <==> at < self@.len() && base + self@[at as int].offset <= u64::MAX,
            r matches Some(address) ==> address == base + self@[at as int].offset,
    {
        if at < self.hooks.len() {
            base.checked_add(self.hooks[at].offset)
        } else {
            None
        }
    }
}

} // verus!
