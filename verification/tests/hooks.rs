use systrace::hooks::{CallSiteKind, HookError, HookTable, SyscallHook};

fn library_hooks() -> Vec<SyscallHook> {
    vec![
        SyscallHook { offset: 0x5a0, kind: CallSiteKind::SingleInstruction },
        SyscallHook { offset: 0x5c8, kind: CallSiteKind::SingleInstruction },
        SyscallHook { offset: 0x5f0, kind: CallSiteKind::MultiInstruction },
        SyscallHook { offset: 0xff8, kind: CallSiteKind::MultiInstruction },
    ]
}

#[test]
fn can_resolve_syscall_hooks() {
    let parsed = HookTable::from_entries(library_hooks()).expect("usable table");
    assert_ne!(parsed.len(), 0);
}

#[test]
fn libsystrace_trampoline_within_first_page() {
    let parsed = HookTable::from_entries(library_hooks()).expect("usable table");
    let mut filtered = 0usize;
    for i in 0..parsed.len() {
        let hook = parsed.get(i).expect("entry");
        if hook.offset < 0x1000 {
            filtered += 1;
        }
    }
    assert_eq!(parsed.len(), filtered);
}

#[test]
fn empty_hook_table_is_refused() {
    assert_eq!(HookTable::from_entries(Vec::new()).err(), Some(HookError::Empty));
}

#[test]
fn hook_outside_first_page_is_refused() {
    let mut hooks = library_hooks();
    hooks.insert(2, SyscallHook { offset: 0x1000, kind: CallSiteKind::SingleInstruction });
    hooks.push(SyscallHook { offset: 0x2000, kind: CallSiteKind::SingleInstruction });
    assert_eq!(HookTable::from_entries(hooks).err(), Some(HookError::OutsideFirstPage(2)));
}

#[test]
fn hook_table_keeps_entries_in_order() {
    let table = HookTable::from_entries(library_hooks()).expect("usable table");
    assert_eq!(table.len(), 4);
    assert_eq!(
        table.get(2),
        Some(SyscallHook { offset: 0x5f0, kind: CallSiteKind::MultiInstruction })
    );
    assert_eq!(table.get(4), None);
}

#[test]
fn hook_address_is_base_plus_offset() {
    let table = HookTable::from_entries(library_hooks()).expect("usable table");
    assert_eq!(table.resolve(0x7fff_0000_0000, 0), Some(0x7fff_0000_05a0));
    assert_eq!(table.resolve(0x7fff_0000_0000, 3), Some(0x7fff_0000_0ff8));
    assert_eq!(table.resolve(0x7fff_0000_0000, 4), None);
    assert_eq!(table.resolve(u64::MAX - 0x5a0, 0), Some(u64::MAX));
    assert_eq!(table.resolve(u64::MAX - 0x59f, 0), None);
}
