//! Access to the memory of a traced process: the tracer's image of what the
//! process has mapped, the ranges that are in use, and reads and writes
//! under a guard.

use vstd::prelude::*;
use vstd::multiset::Multiset;
use crate::remote_model::{
    image, lemma_insert_keeps_rules, lemma_region_unique, lemma_remove_keeps_rules,
    lemma_same_layout, mapped, region_at, region_holds, regions_ok, same_layout,
    writable_addresses, MemoryView,
};
use crate::task::Pid;

verus! {

/// What a range of remote memory is held for.
#[derive(Clone, Copy, Debug, PartialEq, Eq)]
pub enum AccessMode {
    Read,
    Write,
}

/// A range of addresses of a traced process that an operation works on.
#[derive(Clone, Copy, Debug, PartialEq, Eq)]
pub struct RemoteAddressRange {
    pub start: u64,
    pub len: u64,
    pub mode: AccessMode,
}

/// Why a remote memory operation was refused.
#[derive(Clone, Copy, Debug, PartialEq, Eq)]
pub enum RemoteError {
    /// Part of the range is not mapped in the target.
    AddressInvalid,
    /// The range overlaps one that is held for writing.
    RangeConflict,
    /// The target does not allow the access.
    AccessDenied,
}

/// The handle for a range that was acquired; it is given back to release
/// the range.
#[derive(Debug, PartialEq, Eq)]
pub struct RangeGuard {
    pub pid: Pid,
    pub range: RemoteAddressRange,
}

/// One mapped stretch of the target's memory with what it holds.
#[derive(Debug, PartialEq, Eq)]
pub struct Region {
    pub start: u64,
    pub data: Vec<u8>,
    pub writable: bool,
}

impl RemoteAddressRange {
    /// The first address behind the range.
    pub open spec fn end(self) -> int {
        self.start + self.len
    }

    /// Whether the address lies in the range.
    pub open spec fn holds(self, a: int) -> bool {
        self.start <= a < self.end()
    }

    /// Whether the two ranges share an address.
    pub open spec fn overlaps(self, other: RemoteAddressRange) -> bool {
        self.len > 0 && other.len > 0 && self.start < other.end() && other.start < self.end()
    }

    /// Whether the two ranges share an address.
    pub fn intersects(&self, other: &RemoteAddressRange) -> (b: bool)
        ensures
            b == self.overlaps(*other),
    {
        let self_end: u128 = self.start as u128 + self.len as u128;
        let other_end: u128 = other.start as u128 + other.len as u128;
        self.len > 0 && other.len > 0 && (self.start as u128) < other_end && (other.start as u128)
            < self_end
    }

    /// Whether the two ranges are the same.
    pub fn same(&self, other: &RemoteAddressRange) -> (b: bool)
        ensures
            b == (*self == *other),
    {
        let same_mode = match (self.mode, other.mode) {
            (AccessMode::Read, AccessMode::Read) => true,
            (AccessMode::Write, AccessMode::Write) => true,
            _ => false,
        };
        self.start == other.start && self.len == other.len && same_mode
    }

    pub fn is_write(&self) -> (b: bool)
        ensures
            b == (self.mode is Write),
    {
        match self.mode {
            AccessMode::Write => true,
            AccessMode::Read => false,
        }
    }
}

/// The place of the region that holds the address.
fn find_region(regions: &Vec<Region>, addr: u64) -> (r: Option<usize>)
    ensures
        match r {
            Some(i) => i < regions.len() && region_holds(regions@[i as int], addr as int),
            None => !mapped(regions@, addr as int),
        },
{
    let mut i: usize = 0;
    while i < regions.len()
        invariant
            i <= regions.len(),
            forall|j: int| 0 <= j < i ==> !#[trigger] region_holds(regions@[j], addr as int),
        decreases regions.len() - i,
    {
        let region = &regions[i];
        if region.start <= addr && (addr as u128) < region.start as u128
            + region.data.len() as u128 {
            return Some(i);
        }
        i += 1;
    }
    None
}

/// Whether the regions can stand for the memory of one process.
fn check_regions(regions: &Vec<Region>) -> (ok: bool)
    ensures
        ok == regions_ok(regions@),
{
    let mut i: usize = 0;
    while i < regions.len()
        invariant
            i <= regions.len(),
            forall|k: int|
                0 <= k < i ==> (#[trigger] regions@[k]).start + regions@[k].data@.len()
                    <= u64::MAX,
            forall|k: int, j: int|
                0 <= k < j < regions.len() && k < i ==> (#[trigger] regions@[k]).start
                    + regions@[k].data@.len() <= (#[trigger] regions@[j]).start
                    || regions@[j].start + regions@[j].data@.len() <= regions@[k].start,
        decreases regions.len() - i,
    {
        let end_i: u128 = regions[i].start as u128 + regions[i].data.len() as u128;
        if end_i > u64::MAX as u128 {
            return false;
        }
        let mut j: usize = i + 1;
        while j < regions.len()
            invariant
                i < j <= regions.len(),
                end_i == regions@[i as int].start + regions@[i as int].data@.len(),
                forall|m: int|
                    i < m < j ==> end_i <= (#[trigger] regions@[m]).start || regions@[m].start
                        + regions@[m].data@.len() <= regions@[i as int].start,
            decreases regions.len() - j,
        {
            let end_j: u128 = regions[j].start as u128 + regions[j].data.len() as u128;
            if !(end_i <= regions[j].start as u128 || end_j <= regions[i].start as u128) {
                return false;
            }
            j += 1;
        }
        i += 1;
    }
    true
}

/// The tracer's image of the memory of one traced process, with the ranges
/// that operations hold. Whether the target is stopped is for the caller to
/// say; the layer only refuses access while it was not said.
pub struct RemoteMemory {
    pid: Pid,
    stopped: bool,
    regions: Vec<Region>,
    held: Vec<RemoteAddressRange>,
}

impl View for RemoteMemory {
    type V = MemoryView;

    closed spec fn view(&self) -> MemoryView {
        MemoryView {
            pid: self.pid,
            stopped: self.stopped,
            bytes: image(self.regions@),
            writable: writable_addresses(self.regions@),
            held: self.held@.to_multiset(),
        }
    }
}

impl RemoteMemory {
    /// What every operation keeps: the regions stand for the memory of one
    /// process, and the ranges in use obey the rules.
    pub closed spec fn wf(&self) -> bool {
        regions_ok(self.regions@) && self@.wf()
    }

    /// The layer for the process `pid` with the given mapped regions, not
    /// yet reported as stopped and with no range in use. There is none
    /// where a region reaches beyond the address space or two regions share
    /// an address.
    pub fn new(pid: Pid, regions: Vec<Region>) -> (r: Option<RemoteMemory>)
        ensures
            r is Some <==> regions_ok(regions@),
            r matches Some(memory) ==> memory.wf() && memory@ == (MemoryView {
                pid,
                stopped: false,
                bytes: image(regions@),
                writable: writable_addresses(regions@),
                held: Multiset::empty(),
            }),
    {
        if !check_regions(&regions) {
            return None;
        }
        let memory = RemoteMemory { pid, stopped: false, regions, held: Vec::new() };
        proof {
            broadcast use vstd::seq_lib::group_to_multiset_ensures;

            assert(memory.held@.to_multiset() =~= Multiset::<RemoteAddressRange>::empty());
        }
        Some(memory)
    }

    /// Records what the caller knows of the target: stopped, or running.
    pub fn set_stopped(&mut self, stopped: bool)
        requires
            old(self).wf(),
        ensures
            final(self).wf(),
            final(self)@ == (MemoryView { stopped, ..old(self)@ }),
    {
        self.stopped = stopped;
    }

    pub fn pid(&self) -> (pid: Pid)
        ensures
            pid == self@.pid,
    {
        self.pid
    }

    pub fn is_stopped(&self) -> (b: bool)
        ensures
            b == self@.stopped,
    {
        self.stopped
    }

    /// Whether every address of the range is mapped and, if so, whether
    /// every one may be written to.
    fn span(&self, range: &RemoteAddressRange) -> (r: (bool, bool))
        requires
            regions_ok(self.regions@),
        ensures
            r.0 == self@.covers(*range),
            r.0 ==> r.1 == self@.writable_over(*range),
    {
        let end: u128 = range.start as u128 + range.len as u128;
        let mut cur: u128 = range.start as u128;
        let mut writable = true;
        while cur < end
            invariant
                regions_ok(self.regions@),
                end == range.end(),
                range.start <= cur <= end,
                cur <= u64::MAX || cur == end,
                forall|a: int| range.start <= a < cur ==> mapped(self.regions@, a),
                writable <==> (forall|a: int|
                    range.start <= a < cur ==> #[trigger] writable_addresses(
                        self.regions@,
                    ).contains(a)),
            decreases end - cur,
        {
            match find_region(&self.regions, cur as u64) {
                None => {
                    proof {
                        assert(range.holds(cur as int));
                    }
                    return (false, false);
                },
                Some(i) => {
                    let region = &self.regions[i];
                    let region_end: u128 = region.start as u128 + region.data.len() as u128;
                    let next: u128 = if region_end < end {
                        region_end
                    } else {
                        end
                    };
                    proof {
                        assert forall|a: int| cur <= a < next implies mapped(self.regions@, a)
                            && (writable_addresses(self.regions@).contains(a)
                            <==> region.writable) by {
                            assert(region_holds(self.regions@[i as int], a));
                            lemma_region_unique(self.regions@, a, i as int);
                        }
                        if !region.writable {
                            assert(!writable_addresses(self.regions@).contains(cur as int));
                        }
                    }
                    if !region.writable {
                        writable = false;
                    }
                    cur = next;
                },
            }
        }
        proof {
            assert forall|a: int| #[trigger] range.holds(a) implies self@.bytes.dom().contains(
                a,
            ) by {
                assert(mapped(self.regions@, a));
            }
            if writable {
                assert forall|a: int| #[trigger] range.holds(a) implies self@.writable.contains(
                    a,
                ) by {
                    assert(writable_addresses(self.regions@).contains(a));
                }
            } else {
                let a = choose|a: int|
                    range.start <= a < cur && !#[trigger] writable_addresses(
                        self.regions@,
                    ).contains(a);
                assert(range.holds(a));
            }
        }
        (true, writable)
    }

    /// Whether the range overlaps one that is held for writing.
    fn conflicting(&self, range: &RemoteAddressRange) -> (b: bool)
        ensures
            b == self@.conflicts(*range),
    {
        broadcast use vstd::seq_lib::group_to_multiset_ensures;

        let mut i: usize = 0;
        while i < self.held.len()
            invariant
                i <= self.held.len(),
                forall|j: int|
                    0 <= j < i ==> !((#[trigger] self.held@[j]).mode is Write
                        && self.held@[j].overlaps(*range)),
            decreases self.held.len() - i,
        {
            let h = &self.held[i];
            if h.is_write() && h.intersects(range) {
                proof {
                    assert(self.held@.contains(self.held@[i as int]));
                    vstd::seq_lib::to_multiset_contains(self.held@, self.held@[i as int]);
                    assert(self@.held.count(self.held@[i as int]) > 0);
                }
                return true;
            }
            i += 1;
        }
        proof {
            if self@.conflicts(*range) {
                let h = choose|h: RemoteAddressRange|
                    #[trigger] self@.held.count(h) > 0 && h.mode is Write && h.overlaps(*range);
                assert(self.held@.contains(h));
                let j = choose|j: int| 0 <= j < self.held@.len() && self.held@[j] == h;
                assert(self.held@[j].mode is Write);
            }
        }
        false
    }

    /// The place of the first held range that equals `range`.
    fn find_held(&self, range: &RemoteAddressRange) -> (r: Option<usize>)
        ensures
            match r {
                Some(i) => i < self.held.len() && self.held@[i as int] == *range,
                None => self@.held.count(*range) == 0,
            },
            r is Some <==> self@.held.count(*range) > 0,
    {
        broadcast use vstd::seq_lib::group_to_multiset_ensures;

        let mut i: usize = 0;
        while i < self.held.len()
            invariant
                i <= self.held.len(),
                forall|j: int| 0 <= j < i ==> self.held@[j] != *range,
            decreases self.held.len() - i,
        {
            if self.held[i].same(range) {
                proof {
                    assert(self.held@.contains(self.held@[i as int]));
                    vstd::seq_lib::to_multiset_contains(self.held@, *range);
                }
                return Some(i);
            }
            i += 1;
        }
        proof {
            if self.held@.contains(*range) {
                let j = choose|j: int| 0 <= j < self.held@.len() && self.held@[j] == *range;
                assert(false);
            }
        }
        None
    }

    /// Acquires the range of the process for an operation. On success the
    /// range is held until its guard is released. A refusal changes
    /// nothing.
    pub fn acquire(&mut self, pid: Pid, range: RemoteAddressRange) -> (r: Result<
        RangeGuard,
        RemoteError,
    >)
        requires
            old(self).wf(),
        ensures
            final(self).wf(),
            match r {
                Ok(guard) => old(self)@.refusal(pid, range) is None && guard == (RangeGuard {
                    pid,
                    range,
                }) && final(self)@ == (MemoryView {
                    held: old(self)@.held.insert(range),
                    ..old(self)@
                }),
                Err(e) => old(self)@.refusal(pid, range) == Some(e) && final(self)@ == old(self)@,
            },
    {
        if pid != self.pid {
            return Err(RemoteError::AccessDenied);
        }
        if self.conflicting(&range) {
            return Err(RemoteError::RangeConflict);
        }
        let (covered, writable) = self.span(&range);
        if !covered {
            return Err(RemoteError::AddressInvalid);
        }
        if !self.stopped || (range.is_write() && !writable) {
            return Err(RemoteError::AccessDenied);
        }
        proof {
            broadcast use vstd::seq_lib::group_to_multiset_ensures;

            lemma_insert_keeps_rules(self@, range);
        }
        self.held.push(range);
        Ok(RangeGuard { pid, range })
    }

    /// Gives a range back. A guard that stands for no range held here
    /// changes nothing.
    pub fn release(&mut self, guard: RangeGuard)
        requires
            old(self).wf(),
        ensures
            final(self).wf(),
            final(self)@ == (MemoryView {
                held: if old(self)@.honours(guard) {
                    old(self)@.held.remove(guard.range)
                } else {
                    old(self)@.held
                },
                ..old(self)@
            }),
    {
        if guard.pid != self.pid {
            return ;
        }
        match self.find_held(&guard.range) {
            Some(i) => {
                proof {
                    broadcast use vstd::seq_lib::group_to_multiset_ensures;

                    lemma_remove_keeps_rules(self@, guard.range);
                }
                self.held.remove(i);
            },
            None => {},
        }
    }
}

/// Puts one byte into a region.
fn store(regions: &mut Vec<Region>, at: usize, offset: usize, value: u8)
    requires
        at < old(regions)@.len(),
        offset < old(regions)@[at as int].data@.len(),
    ensures
        same_layout(old(regions)@, final(regions)@),
        forall|k: int|
            0 <= k < old(regions)@.len() && k != at ==> (#[trigger] final(regions)@[k]).data@
                == old(regions)@[k].data@,
        final(regions)@[at as int].data@ == old(regions)@[at as int].data@.update(
            offset as int,
            value,
        ),
{
    let region = &mut regions[at];
    region.data[offset] = value;
}

impl RemoteMemory {
    /// Reads the bytes of a range that is held. The target must have been
    /// reported as stopped.
    pub fn read(&self, guard: &RangeGuard) -> (r: Result<Vec<u8>, RemoteError>)
        requires
            self.wf(),
        ensures
            match r {
                Ok(bytes) => self@.honours(*guard) && self@.stopped && bytes@ == self@.slice(
                    guard.range.start as int,
                    guard.range.len as nat,
                ),
                Err(e) => e == RemoteError::AccessDenied && !(self@.honours(*guard)
                    && self@.stopped),
            },
    {
        if guard.pid != self.pid || !self.stopped {
            return Err(RemoteError::AccessDenied);
        }
        if self.find_held(&guard.range).is_none() {
            return Err(RemoteError::AccessDenied);
        }
        let range = guard.range;
        assert(self@.covers(range));
        let mut bytes: Vec<u8> = Vec::new();
        let mut i: u64 = 0;
        while i < range.len
            invariant
                regions_ok(self.regions@),
                self@.covers(range),
                i <= range.len,
                bytes@.len() == i,
                forall|k: int| 0 <= k < i ==> #[trigger] bytes@[k] == self@.bytes[range.start + k],
            decreases range.len - i,
        {
            proof {
                assert(range.holds(range.start + i));
                assert(mapped(self.regions@, range.start + i));
                let c = region_at(self.regions@, range.start + i);
                assert(region_holds(self.regions@[c], range.start + i));
            }
            let addr: u64 = range.start + i;
            match find_region(&self.regions, addr) {
                Some(at) => {
                    proof {
                        lemma_region_unique(self.regions@, addr as int, at as int);
                    }
                    let region = &self.regions[at];
                    let size: usize = region.data.len();
                    assert(addr - region.start < size);
                    let offset: usize = (addr - region.start) as usize;
                    assert(self@.bytes[addr as int] == region.data@[offset as int]);
                    bytes.push(region.data[offset]);
                },
                None => {
                    return vstd::pervasive::unreached();
                },
            }
            i += 1;
        }
        assert(bytes@ =~= self@.slice(range.start as int, range.len as nat));
        Ok(bytes)
    }
}

impl RemoteMemory {
    /// Writes the bytes to a range that is held for writing. The target
    /// must have been reported as stopped, and the bytes must fill the
    /// range. A refusal changes nothing.
    pub fn write(&mut self, guard: &RangeGuard, bytes: &Vec<u8>) -> (r: Result<(), RemoteError>)
        requires
            old(self).wf(),
        ensures
            final(self).wf(),
            match r {
                Ok(()) => old(self)@.write_refusal(*guard, bytes@.len()) is None && final(self)@
                    == old(self)@.written(guard.range.start as int, bytes@),
                Err(e) => old(self)@.write_refusal(*guard, bytes@.len()) == Some(e)
                    && final(self)@ == old(self)@,
            },
    {
        if guard.pid != self.pid || !self.stopped || !guard.range.is_write() {
            return Err(RemoteError::AccessDenied);
        }
        if self.find_held(&guard.range).is_none() {
            return Err(RemoteError::AccessDenied);
        }
        let range = guard.range;
        if bytes.len() as u64 != range.len {
            return Err(RemoteError::AddressInvalid);
        }
        let ghost before = self.regions@;
        let ghost start_view = self@;
        assert(start_view.covers(range));
        let mut i: usize = 0;
        while i < bytes.len()
            invariant
                regions_ok(before),
                same_layout(before, self.regions@),
                self.pid == start_view.pid,
                self.stopped == start_view.stopped,
                self.held@.to_multiset() == start_view.held,
                start_view.bytes == image(before),
                start_view.covers(range),
                bytes@.len() == range.len,
                i <= bytes.len(),
                forall|k: int, o: int|
                    0 <= k < before.len() && 0 <= o < before[k].data@.len()
                        ==> #[trigger] self.regions@[k].data@[o] == if range.start <= before[k].start
                        + o < range.start + i {
                        bytes@[before[k].start + o - range.start]
                    } else {
                        before[k].data@[o]
                    },
            decreases bytes.len() - i,
        {
            proof {
                assert(range.holds(range.start + i));
                assert(mapped(before, range.start + i));
                let c = region_at(before, range.start + i);
                assert(region_holds(before[c], range.start + i));
                lemma_same_layout(before, self.regions@);
            }
            let addr: u64 = range.start + i as u64;
            match find_region(&self.regions, addr) {
                Some(at) => {
                    let size: usize = self.regions[at].data.len();
                    let base: u64 = self.regions[at].start;
                    assert(addr - base < size);
                    let offset: usize = (addr - base) as usize;
                    let ghost previous = self.regions@;
                    store(&mut self.regions, at, offset, bytes[i]);
                    proof {
                        assert(region_holds(before[at as int], addr as int));
                        lemma_region_unique(before, addr as int, at as int);
                        assert forall|k: int, o: int|
                            0 <= k < before.len() && 0 <= o < before[k].data@.len()
                            implies #[trigger] self.regions@[k].data@[o] == if range.start
                            <= before[k].start + o < range.start + i + 1 {
                            bytes@[before[k].start + o - range.start]
                        } else {
                            before[k].data@[o]
                        } by {
                            assert(previous[k].data@.len() == before[k].data@.len());
                            if before[k].start + o == addr {
                                assert(region_holds(before[k], addr as int));
                                lemma_region_unique(before, addr as int, k);
                            } else {
                                assert(self.regions@[k].data@[o] == previous[k].data@[o]);
                            }
                        }
                    }
                },
                None => {
                    return vstd::pervasive::unreached();
                },
            }
            i += 1;
        }
        proof {
            lemma_same_layout(before, self.regions@);
            let target = start_view.written(range.start as int, bytes@);
            assert forall|a: int| #[trigger] image(self.regions@).dom().contains(a) implies image(
                self.regions@,
            )[a] == target.bytes[a] by {
                assert(mapped(self.regions@, a));
                let k = region_at(self.regions@, a);
                assert(region_holds(self.regions@[k], a));
                assert(region_at(before, a) == k);
                assert(self.regions@[k].start == before[k].start);
                assert(self.regions@[k].data@.len() == before[k].data@.len());
                let o = a - before[k].start;
                assert(self.regions@[k].data@[o] == if range.start <= before[k].start + o
                    < range.start + i {
                    bytes@[before[k].start + o - range.start]
                } else {
                    before[k].data@[o]
                });
            }
            assert(image(self.regions@) =~= target.bytes);
            assert(self@ == target);
        }
        Ok(())
    }
}

} // verus!
