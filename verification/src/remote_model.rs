//! The remote memory layer as a mathematical value: which addresses are
//! mapped, what they hold, which ranges are in use, and what holds of reads
//! and writes under a guard.

use vstd::prelude::*;
use vstd::multiset::Multiset;
use crate::remote::{RangeGuard, Region, RemoteAddressRange, RemoteError};
use crate::task::Pid;

verus! {

/// Whether the region holds the address.
pub open spec fn region_holds(region: Region, a: int) -> bool {
    region.start <= a < region.start + region.data@.len()
}

/// Whether some region holds the address.
pub open spec fn mapped(regions: Seq<Region>, a: int) -> bool {
    exists|i: int| 0 <= i < regions.len() && #[trigger] region_holds(regions[i], a)
}

/// The place of a region that holds the address.
pub open spec fn region_at(regions: Seq<Region>, a: int) -> int {
    choose|i: int| 0 <= i < regions.len() && #[trigger] region_holds(regions[i], a)
}

/// Regions that can stand for the memory of one process: each ends within
/// the address space, and no two share an address.
pub open spec fn regions_ok(regions: Seq<Region>) -> bool {
    &&& forall|i: int|
        0 <= i < regions.len() ==> (#[trigger] regions[i]).start + regions[i].data@.len()
            <= u64::MAX
    &&& forall|i: int, j: int|
        0 <= i < j < regions.len() ==> (#[trigger] regions[i]).start + regions[i].data@.len() <= (
        #[trigger] regions[j]).start || regions[j].start + regions[j].data@.len()
            <= regions[i].start
}

/// The bytes that the regions hold, by address.
pub open spec fn image(regions: Seq<Region>) -> Map<int, u8> {
    Map::new(
        |a: int| mapped(regions, a),
        |a: int|
            {
                let region = regions[region_at(regions, a)];
                region.data@[a - region.start]
            },
    )
}

/// The addresses that the target may write to.
pub open spec fn writable_addresses(regions: Seq<Region>) -> Set<int> {
    Set::new(|a: int| mapped(regions, a) && regions[region_at(regions, a)].writable)
}

/// The remote memory layer as a mathematical value.
pub struct MemoryView {
    pub pid: Pid,
    /// Whether the caller has reported the target as stopped.
    pub stopped: bool,
    /// The mapped bytes, by address.
    pub bytes: Map<int, u8>,
    /// The mapped addresses that may be written to.
    pub writable: Set<int>,
    /// The ranges that are held.
    pub held: Multiset<RemoteAddressRange>,
}

impl MemoryView {
    /// Whether every address of the range is mapped.
    pub open spec fn covers(self, range: RemoteAddressRange) -> bool {
        forall|a: int| #[trigger] range.holds(a) ==> self.bytes.dom().contains(a)
    }

    /// Whether every address of the range may be written to.
    pub open spec fn writable_over(self, range: RemoteAddressRange) -> bool {
        forall|a: int| #[trigger] range.holds(a) ==> self.writable.contains(a)
    }

    /// Whether the range overlaps one that is held for writing.
    pub open spec fn conflicts(self, range: RemoteAddressRange) -> bool {
        exists|h: RemoteAddressRange|
            #[trigger] self.held.count(h) > 0 && h.mode is Write && h.overlaps(range)
    }

    /// Whether the guard stands for a range that is held here.
    pub open spec fn honours(self, guard: RangeGuard) -> bool {
        guard.pid == self.pid && self.held.count(guard.range) > 0
    }

    /// Why the range cannot be acquired for the process, if it cannot. The
    /// layer stands for one process only. Of the other reasons the first
    /// that holds is given: a conflict with a range held for writing, an
    /// unmapped address, a target that is not stopped or does not let the
    /// range be written.
    pub open spec fn refusal(self, pid: Pid, range: RemoteAddressRange) -> Option<RemoteError> {
        if pid != self.pid {
            Some(RemoteError::AccessDenied)
        } else if self.conflicts(range) {
            Some(RemoteError::RangeConflict)
        } else if !self.covers(range) {
            Some(RemoteError::AddressInvalid)
        } else if !self.stopped || (range.mode is Write && !self.writable_over(range)) {
            Some(RemoteError::AccessDenied)
        } else {
            None
        }
    }

    /// What holds of the ranges in use: each is mapped, one held for
    /// writing may be written, and no two ranges held for writing overlap.
    pub open spec fn wf(self) -> bool {
        &&& forall|h: RemoteAddressRange| #[trigger]
            self.held.count(h) > 0 ==> self.covers(h) && (h.mode is Write ==> self.writable_over(
                h,
            ))
        &&& forall|h1: RemoteAddressRange, h2: RemoteAddressRange|
            #[trigger] self.held.count(h1) > 0 && #[trigger] self.held.count(h2) > 0
                && h1.mode is Write && h2.mode is Write && h1.overlaps(h2) ==> h1 == h2
                && self.held.count(h1) == 1
    }

    /// Why `count` bytes cannot be written under the guard, if they cannot:
    /// the guard does not stand for a range held here for writing, or the
    /// target is not stopped; or else the bytes are not as many as the range
    /// is long.
    pub open spec fn write_refusal(self, guard: RangeGuard, count: nat) -> Option<RemoteError> {
        if !(self.honours(guard) && guard.range.mode is Write && self.stopped) {
            Some(RemoteError::AccessDenied)
        } else if count != guard.range.len {
            Some(RemoteError::AddressInvalid)
        } else {
            None
        }
    }

    /// The bytes of `len` addresses from `start` on.
    pub open spec fn slice(self, start: int, len: nat) -> Seq<u8> {
        Seq::new(len, |i: int| self.bytes[start + i])
    }

    /// The memory after `data` was written from `start` on.
    pub open spec fn written(self, start: int, data: Seq<u8>) -> MemoryView {
        MemoryView {
            bytes: Map::new(
                |a: int| self.bytes.dom().contains(a),
                |a: int|
                    if start <= a < start + data.len() {
                        data[a - start]
                    } else {
                        self.bytes[a]
                    },
            ),
            ..self
        }
    }
}

/// In regions that share no address, an address has one region.
pub proof fn lemma_region_unique(regions: Seq<Region>, a: int, at: int)
    requires
        regions_ok(regions),
        0 <= at < regions.len(),
        region_holds(regions[at], a),
    ensures
        mapped(regions, a),
        region_at(regions, a) == at,
{
    let c = region_at(regions, a);
    assert(region_holds(regions[c], a));
    if c < at {
        assert(regions[c].start + regions[c].data@.len() <= regions[at].start || regions[at].start
            + regions[at].data@.len() <= regions[c].start);
    } else if at < c {
        assert(regions[at].start + regions[at].data@.len() <= regions[c].start || regions[c].start
            + regions[c].data@.len() <= regions[at].start);
    }
}

/// A range that is not refused can join the held ones.
pub proof fn lemma_insert_keeps_rules(v: MemoryView, range: RemoteAddressRange)
    requires
        v.wf(),
        v.refusal(v.pid, range) is None,
    ensures
        (MemoryView { held: v.held.insert(range), ..v }).wf(),
{
    let w = MemoryView { held: v.held.insert(range), ..v };
    assert forall|h: RemoteAddressRange| #[trigger] w.held.count(h) > 0 implies w.covers(h) && (
    h.mode is Write ==> w.writable_over(h)) by {
        if h != range {
            assert(v.held.count(h) > 0);
        }
    }
    assert forall|h1: RemoteAddressRange, h2: RemoteAddressRange|
        #[trigger] w.held.count(h1) > 0 && #[trigger] w.held.count(h2) > 0 && h1.mode is Write
            && h2.mode is Write && h1.overlaps(h2) implies h1 == h2 && w.held.count(h1) == 1 by {
        if h1 == range && h2 == range {
            if v.held.count(range) > 0 {
                assert(v.conflicts(range));
            }
        } else if h1 == range {
            assert(v.held.count(h2) > 0);
            assert(h2.overlaps(range));
            assert(v.conflicts(range));
        } else if h2 == range {
            assert(v.held.count(h1) > 0);
            assert(v.conflicts(range));
        } else {
            assert(v.held.count(h1) > 0 && v.held.count(h2) > 0);
        }
    }
}

/// Giving a range back keeps the rules.
pub proof fn lemma_remove_keeps_rules(v: MemoryView, range: RemoteAddressRange)
    requires
        v.wf(),
    ensures
        (MemoryView { held: v.held.remove(range), ..v }).wf(),
{
    let w = MemoryView { held: v.held.remove(range), ..v };
    assert forall|h: RemoteAddressRange| #[trigger] w.held.count(h) > 0 implies v.held.count(h)
        > 0 by {}
    assert forall|h: RemoteAddressRange| #[trigger] w.held.count(h) > 0 implies w.covers(h) && (
    h.mode is Write ==> w.writable_over(h)) by {
        assert(v.held.count(h) > 0);
    }
    assert forall|h1: RemoteAddressRange, h2: RemoteAddressRange|
        #[trigger] w.held.count(h1) > 0 && #[trigger] w.held.count(h2) > 0 && h1.mode is Write
            && h2.mode is Write && h1.overlaps(h2) implies h1 == h2 && w.held.count(h1) == 1 by {
        assert(v.held.count(h1) > 0 && v.held.count(h2) > 0);
    }
}

/// Whether two lists of regions map the same addresses with the same
/// rights, whatever bytes they hold.
pub open spec fn same_layout(a: Seq<Region>, b: Seq<Region>) -> bool {
    &&& a.len() == b.len()
    &&& forall|k: int|
        0 <= k < a.len() ==> (#[trigger] a[k]).start == (#[trigger] b[k]).start && a[k].writable
            == b[k].writable && a[k].data@.len() == b[k].data@.len()
}

/// Regions with the same layout map the same addresses, each in the region
/// at the same place, and give the same rights.
pub proof fn lemma_same_layout(a: Seq<Region>, b: Seq<Region>)
    requires
        regions_ok(a),
        same_layout(a, b),
    ensures
        regions_ok(b),
        forall|x: int| mapped(a, x) <==> #[trigger] mapped(b, x),
        forall|x: int| #[trigger] mapped(b, x) ==> region_at(a, x) == region_at(b, x),
        writable_addresses(a) == writable_addresses(b),
        image(a).dom() == image(b).dom(),
{
    assert forall|i: int| 0 <= i < b.len() implies (#[trigger] b[i]).start + b[i].data@.len()
        <= u64::MAX by {
        assert(a[i].start == b[i].start);
    }
    assert forall|i: int, j: int| 0 <= i < j < b.len() implies (#[trigger] b[i]).start
        + b[i].data@.len() <= (#[trigger] b[j]).start || b[j].start + b[j].data@.len()
        <= b[i].start by {
        assert(a[i].start == b[i].start);
        assert(a[j].start == b[j].start);
    }
    assert forall|x: int| mapped(a, x) <==> #[trigger] mapped(b, x) by {
        if mapped(a, x) {
            let i = region_at(a, x);
            assert(region_holds(a[i], x));
            assert(region_holds(b[i], x));
        }
        if mapped(b, x) {
            let i = region_at(b, x);
            assert(region_holds(b[i], x));
            assert(region_holds(a[i], x));
        }
    }
    assert forall|x: int| #[trigger] mapped(b, x) implies region_at(a, x) == region_at(b, x) by {
        let i = region_at(b, x);
        assert(region_holds(b[i], x));
        assert(region_holds(a[i], x));
        lemma_region_unique(a, x, i);
    }
    assert(writable_addresses(a) =~= writable_addresses(b)) by {
        assert forall|x: int|
            writable_addresses(a).contains(x) <==> writable_addresses(b).contains(x) by {
            if mapped(b, x) {
                let i = region_at(b, x);
                assert(a[i].writable == b[i].writable);
            }
        }
    }
    assert(image(a).dom() =~= image(b).dom());
}

/// Reading a range back after a write to it gives the bytes that were
/// written, and the write changes no byte outside the range.
pub proof fn lemma_read_after_write(v: MemoryView, range: RemoteAddressRange, data: Seq<u8>)
    requires
        v.covers(range),
        data.len() == range.len,
    ensures
        v.written(range.start as int, data).slice(range.start as int, range.len as nat) == data,
        v.written(range.start as int, data).bytes.dom() == v.bytes.dom(),
        forall|a: int|
            v.bytes.dom().contains(a) && !range.holds(a) ==> #[trigger] v.written(
                range.start as int,
                data,
            ).bytes[a] == v.bytes[a],
{
    let w = v.written(range.start as int, data);
    assert forall|i: int| 0 <= i < range.len implies #[trigger] w.slice(
        range.start as int,
        range.len as nat,
    )[i] == data[i] by {
        assert(range.holds(range.start + i));
    }
    assert(w.slice(range.start as int, range.len as nat) =~= data);
    assert(w.bytes.dom() =~= v.bytes.dom());
}

/// A write elsewhere does not disturb what a range reads: after a write to
/// a range that shares no address with `range`, `range` reads as before.
pub proof fn lemma_write_elsewhere_keeps_range(
    v: MemoryView,
    range: RemoteAddressRange,
    other: RemoteAddressRange,
    data: Seq<u8>,
)
    requires
        v.covers(range),
        data.len() == other.len,
        !range.overlaps(other),
    ensures
        v.written(other.start as int, data).slice(range.start as int, range.len as nat)
            == v.slice(range.start as int, range.len as nat),
{
    let w = v.written(other.start as int, data);
    assert forall|i: int| 0 <= i < range.len implies #[trigger] w.slice(
        range.start as int,
        range.len as nat,
    )[i] == v.slice(range.start as int, range.len as nat)[i] by {
        assert(range.holds(range.start + i));
    }
    assert(w.slice(range.start as int, range.len as nat) =~= v.slice(
        range.start as int,
        range.len as nat,
    ));
}

/// While a range is held for writing, no range that overlaps it can be
/// acquired for the same process: the attempt is refused as a conflict.
pub proof fn lemma_overlapping_write_conflicts(
    v: MemoryView,
    held: RemoteAddressRange,
    range: RemoteAddressRange,
)
    requires
        v.held.count(held) > 0,
        held.mode is Write,
        held.overlaps(range),
    ensures
        v.refusal(v.pid, range) == Some(RemoteError::RangeConflict),
{
}

/// A range acquired for writing shuts out every overlapping range, and
/// giving it back lets them in again: the held ranges are then as they were
/// before.
pub proof fn lemma_acquire_then_release(v: MemoryView, range: RemoteAddressRange)
    requires
        v.wf(),
        v.refusal(v.pid, range) is None,
    ensures
        ({
            let acquired = MemoryView { held: v.held.insert(range), ..v };
            &&& acquired.wf()
            &&& range.mode is Write && range.len > 0 ==> acquired.refusal(v.pid, range) == Some(
                RemoteError::RangeConflict,
            )
            &&& acquired.held.remove(range) == v.held
        }),
{
    let acquired = MemoryView { held: v.held.insert(range), ..v };
    lemma_insert_keeps_rules(v, range);
    assert(acquired.held.remove(range) =~= v.held);
    if range.mode is Write && range.len > 0 {
        assert(acquired.held.count(range) > 0);
        assert(range.overlaps(range));
    }
}

} // verus!
