use systrace::remote::{
    AccessMode, RangeGuard, Region, RemoteAddressRange, RemoteError, RemoteMemory,
};

fn memory() -> RemoteMemory {
    let regions = vec![
        Region { start: 0x1000, data: vec![0u8; 0x100], writable: true },
        Region { start: 0x1100, data: (0..=255u8).collect(), writable: true },
        Region { start: 0x4000, data: vec![7u8; 0x10], writable: false },
    ];
    let mut memory = RemoteMemory::new(77, regions).expect("regions are apart");
    memory.set_stopped(true);
    memory
}

fn range(start: u64, len: u64, mode: AccessMode) -> RemoteAddressRange {
    RemoteAddressRange { start, len, mode }
}

#[test]
fn write_then_read_gives_the_bytes_back() {
    let mut memory = memory();
    let guard = memory.acquire(77, range(0x1010, 5, AccessMode::Write)).unwrap();
    let bytes = vec![1u8, 2, 3, 4, 5];
    assert_eq!(memory.write(&guard, &bytes), Ok(()));
    assert_eq!(memory.read(&guard), Ok(bytes));
    memory.release(guard);
    let around = memory.acquire(77, range(0x100f, 7, AccessMode::Read)).unwrap();
    assert_eq!(memory.read(&around), Ok(vec![0u8, 1, 2, 3, 4, 5, 0]));
}

#[test]
fn write_across_two_regions() {
    let mut memory = memory();
    let guard = memory.acquire(77, range(0x10fe, 4, AccessMode::Write)).unwrap();
    assert_eq!(memory.read(&guard), Ok(vec![0u8, 0, 0, 1]));
    assert_eq!(memory.write(&guard, &vec![9u8, 8, 7, 6]), Ok(()));
    assert_eq!(memory.read(&guard), Ok(vec![9u8, 8, 7, 6]));
    memory.release(guard);
    let next = memory.acquire(77, range(0x1102, 2, AccessMode::Read)).unwrap();
    assert_eq!(memory.read(&next), Ok(vec![2u8, 3]));
}

#[test]
fn overlapping_write_ranges_conflict() {
    let mut memory = memory();
    let _held = memory.acquire(77, range(0x1010, 0x10, AccessMode::Write)).unwrap();
    assert_eq!(
        memory.acquire(77, range(0x101f, 0x10, AccessMode::Write)).err(),
        Some(RemoteError::RangeConflict)
    );
    assert_eq!(
        memory.acquire(77, range(0x1000, 0x11, AccessMode::Write)).err(),
        Some(RemoteError::RangeConflict)
    );
    assert_eq!(
        memory.acquire(77, range(0x1010, 0x10, AccessMode::Write)).err(),
        Some(RemoteError::RangeConflict)
    );
    assert_eq!(
        memory.acquire(77, range(0x1018, 1, AccessMode::Read)).err(),
        Some(RemoteError::RangeConflict)
    );
    assert!(memory.acquire(77, range(0x1020, 0x10, AccessMode::Write)).is_ok());
    assert!(memory.acquire(77, range(0x1000, 0x10, AccessMode::Write)).is_ok());
}

#[test]
fn refused_range_leaves_memory_untouched() {
    let mut memory = memory();
    let held = memory.acquire(77, range(0x1010, 4, AccessMode::Write)).unwrap();
    memory.write(&held, &vec![1u8, 2, 3, 4]).unwrap();
    assert!(memory.acquire(77, range(0x1012, 4, AccessMode::Write)).is_err());
    let forged = RangeGuard { pid: 77, range: range(0x1012, 4, AccessMode::Write) };
    assert_eq!(memory.write(&forged, &vec![9u8; 4]), Err(RemoteError::AccessDenied));
    assert_eq!(memory.read(&held), Ok(vec![1u8, 2, 3, 4]));
}

#[test]
fn release_makes_the_range_available_again() {
    let mut memory = memory();
    let held = memory.acquire(77, range(0x1010, 0x10, AccessMode::Write)).unwrap();
    assert!(memory.acquire(77, range(0x1010, 0x10, AccessMode::Write)).is_err());
    memory.release(held);
    let again = memory.acquire(77, range(0x1010, 0x10, AccessMode::Write)).unwrap();
    assert_eq!(again, RangeGuard { pid: 77, range: range(0x1010, 0x10, AccessMode::Write) });
}

#[test]
fn read_ranges_may_overlap() {
    let mut memory = memory();
    let a = memory.acquire(77, range(0x1100, 4, AccessMode::Read)).unwrap();
    let b = memory.acquire(77, range(0x1102, 4, AccessMode::Read)).unwrap();
    assert_eq!(memory.read(&a), Ok(vec![0u8, 1, 2, 3]));
    assert_eq!(memory.read(&b), Ok(vec![2u8, 3, 4, 5]));
    let c = memory.acquire(77, range(0x1100, 4, AccessMode::Read)).unwrap();
    memory.release(c);
    assert_eq!(memory.read(&a), Ok(vec![0u8, 1, 2, 3]));
    memory.release(a);
    let gone = RangeGuard { pid: 77, range: range(0x1100, 4, AccessMode::Read) };
    assert_eq!(memory.read(&gone), Err(RemoteError::AccessDenied));
}

#[test]
fn unmapped_range_is_invalid() {
    let mut memory = memory();
    assert_eq!(
        memory.acquire(77, range(0x0fff, 2, AccessMode::Read)).err(),
        Some(RemoteError::AddressInvalid)
    );
    assert_eq!(
        memory.acquire(77, range(0x11ff, 2, AccessMode::Read)).err(),
        Some(RemoteError::AddressInvalid)
    );
    assert_eq!(
        memory.acquire(77, range(0x3000, 0x2000, AccessMode::Read)).err(),
        Some(RemoteError::AddressInvalid)
    );
    assert_eq!(
        memory.acquire(77, range(u64::MAX, 2, AccessMode::Read)).err(),
        Some(RemoteError::AddressInvalid)
    );
    assert!(memory.acquire(77, range(0x1000, 0x200, AccessMode::Read)).is_ok());
    assert!(memory.acquire(77, range(0x9000, 0, AccessMode::Read)).is_ok());
}

#[test]
fn running_target_denies_access() {
    let mut memory = memory();
    let guard = memory.acquire(77, range(0x1000, 2, AccessMode::Write)).unwrap();
    memory.set_stopped(false);
    assert!(!memory.is_stopped());
    assert_eq!(memory.read(&guard), Err(RemoteError::AccessDenied));
    assert_eq!(memory.write(&guard, &vec![1u8, 2]), Err(RemoteError::AccessDenied));
    assert_eq!(
        memory.acquire(77, range(0x1100, 2, AccessMode::Read)).err(),
        Some(RemoteError::AccessDenied)
    );
    memory.set_stopped(true);
    assert_eq!(memory.read(&guard), Ok(vec![0u8, 0]));
}

#[test]
fn read_only_region_denies_write() {
    let mut memory = memory();
    assert_eq!(
        memory.acquire(77, range(0x4000, 4, AccessMode::Write)).err(),
        Some(RemoteError::AccessDenied)
    );
    let guard = memory.acquire(77, range(0x4000, 4, AccessMode::Read)).unwrap();
    assert_eq!(memory.read(&guard), Ok(vec![7u8; 4]));
    assert_eq!(memory.write(&guard, &vec![1u8; 4]), Err(RemoteError::AccessDenied));
    assert_eq!(memory.read(&guard), Ok(vec![7u8; 4]));
}

#[test]
fn other_process_is_denied() {
    let mut memory = memory();
    assert_eq!(memory.pid(), 77);
    assert_eq!(
        memory.acquire(78, range(0x1000, 2, AccessMode::Read)).err(),
        Some(RemoteError::AccessDenied)
    );
    let guard = memory.acquire(77, range(0x1000, 2, AccessMode::Write)).unwrap();
    let other = RangeGuard { pid: 78, range: guard.range };
    assert_eq!(memory.read(&other), Err(RemoteError::AccessDenied));
    memory.release(other);
    assert!(memory.acquire(77, range(0x1000, 2, AccessMode::Write)).is_err());
}

#[test]
fn bytes_must_fill_the_range() {
    let mut memory = memory();
    let guard = memory.acquire(77, range(0x1000, 4, AccessMode::Write)).unwrap();
    assert_eq!(memory.write(&guard, &vec![1u8, 2, 3]), Err(RemoteError::AddressInvalid));
    assert_eq!(memory.write(&guard, &vec![1u8, 2, 3, 4, 5]), Err(RemoteError::AddressInvalid));
    assert_eq!(memory.read(&guard), Ok(vec![0u8; 4]));
}

#[test]
fn regions_must_be_apart() {
    let overlapping = vec![
        Region { start: 0x1000, data: vec![0u8; 0x100], writable: true },
        Region { start: 0x10ff, data: vec![0u8; 0x100], writable: true },
    ];
    assert!(RemoteMemory::new(1, overlapping).is_none());
    let beyond = vec![Region { start: u64::MAX - 1, data: vec![0u8; 2], writable: true }];
    assert!(RemoteMemory::new(1, beyond).is_none());
    let adjacent = vec![
        Region { start: 0x1100, data: vec![0u8; 0x100], writable: true },
        Region { start: 0x1000, data: vec![0u8; 0x100], writable: true },
    ];
    assert!(RemoteMemory::new(1, adjacent).is_some());
    assert!(RemoteMemory::new(1, Vec::new()).is_some());
}

#[test]
fn range_helpers() {
    let a = range(10, 5, AccessMode::Write);
    assert!(a.intersects(&range(14, 1, AccessMode::Read)));
    assert!(!a.intersects(&range(15, 1, AccessMode::Read)));
    assert!(!a.intersects(&range(12, 0, AccessMode::Read)));
    assert!(range(u64::MAX, u64::MAX, AccessMode::Read).intersects(&range(
        u64::MAX,
        1,
        AccessMode::Read
    )));
    assert!(a.same(&range(10, 5, AccessMode::Write)));
    assert!(!a.same(&range(10, 5, AccessMode::Read)));
    assert!(a.is_write());
}
