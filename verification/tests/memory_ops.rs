use poggers::errors::MemError;
use poggers::process::{Process, ProcessEntry};
use poggers::protections::Protections;

fn open_process() -> Process {
    let procs = vec![ProcessEntry { pid: 1234, exe_path: String::from("game.exe") }];
    Process::find_from_pid(1234, &procs).unwrap()
}

#[test]
fn write_then_read_roundtrips() {
    let mut p = open_process();
    let va = p.allocate(None, 4096, Protections::ReadWrite).unwrap();
    let addr = va.get_addr();
    let data = [0xDEu8, 0xAD, 0xBE, 0xEF];
    p.raw_write(addr + 8, &data).unwrap();
    assert_eq!(p.raw_read(addr + 8, 4).unwrap(), vec![0xDE, 0xAD, 0xBE, 0xEF]);
    // untouched bytes of the fresh allocation stay zero
    assert_eq!(p.raw_read(addr, 8).unwrap(), vec![0u8; 8]);
}

#[test]
fn typed_u32_roundtrips() {
    let mut p = open_process();
    let va = p.allocate(None, 4096, Protections::ReadWrite).unwrap();
    let addr = va.get_addr();
    p.write_u32(addr, 0xCAFEBABE).unwrap();
    assert_eq!(p.read_u32(addr).unwrap(), 0xCAFEBABE);
    // little-endian layout
    assert_eq!(p.raw_read(addr, 4).unwrap(), vec![0xBE, 0xBA, 0xFE, 0xCA]);
}

#[test]
fn typed_u64_roundtrips() {
    let mut p = open_process();
    let va = p.allocate(None, 4096, Protections::ReadWrite).unwrap();
    let addr = va.get_addr();
    p.write_u64(addr + 16, 0x0123456789ABCDEF).unwrap();
    assert_eq!(p.read_u64(addr + 16).unwrap(), 0x0123456789ABCDEF);
    assert_eq!(
        p.raw_read(addr + 16, 8).unwrap(),
        vec![0xEF, 0xCD, 0xAB, 0x89, 0x67, 0x45, 0x23, 0x01]
    );
}

#[test]
fn protection_idempotence_of_query() {
    let mut p = open_process();
    let va = p.allocate(None, 4096, Protections::ReadWrite).unwrap();
    let addr = va.get_addr();
    p.alter_protection(addr, 16, Protections::ReadOnly).unwrap();
    let old = p.alter_protection(addr, 16, Protections::ReadOnly).unwrap();
    assert_eq!(old, Protections::ReadOnly);
}

#[test]
fn protection_restore_via_query() {
    let mut p = open_process();
    let va = p.allocate(None, 4096, Protections::ReadWrite).unwrap();
    let addr = va.get_addr();
    let old = p.alter_protection(addr, 32, Protections::NoAccess).unwrap();
    assert_eq!(old, Protections::ReadWrite);
    p.alter_protection(addr, 32, old).unwrap();
    let info = p.raw_query(addr);
    assert_eq!(info.protection, Protections::ReadWrite);
    assert_eq!(info.base, addr);
    assert_eq!(info.size, 4096);
}

#[test]
fn allocation_lifecycle() {
    let mut p = open_process();
    let va = p.allocate(None, 4096, Protections::ReadWrite).unwrap();
    let addr = va.get_addr();
    assert_eq!(va.get_size(), 4096);
    p.raw_write(addr, &[1u8, 2, 3]).unwrap();
    assert_eq!(p.raw_read(addr, 3).unwrap(), vec![1, 2, 3]);
    va.free(&mut p);
    let info = p.raw_query(addr);
    assert_eq!(info.size, 0);
    assert_eq!(info.protection, Protections::Invalid);
    assert!(matches!(p.raw_read(addr, 1), Err(MemError::ReadFailure(_))));
}

#[test]
fn allocation_honors_a_free_hint() {
    let mut p = open_process();
    let va = p.allocate(Some(0x200000), 64, Protections::ReadWrite).unwrap();
    assert_eq!(va.get_addr(), 0x200000);
    // an occupied hint falls back to another address
    let vb = p.allocate(Some(0x200000), 64, Protections::ReadWrite).unwrap();
    assert_ne!(vb.get_addr(), 0x200000);
}

#[test]
fn read_failures_are_typed() {
    let p = open_process();
    match p.raw_read(0x500, 4) {
        Err(MemError::ReadFailure(a)) => assert_eq!(a, 0x500),
        other => panic!("expected a read failure, got {:?}", other),
    }
}

#[test]
fn write_to_readonly_region_fails() {
    let mut p = open_process();
    let va = p.allocate(None, 64, Protections::ReadOnly).unwrap();
    let addr = va.get_addr();
    match p.raw_write(addr, &[1u8]) {
        Err(MemError::WriteFailure(a)) => assert_eq!(a, addr),
        other => panic!("expected a write failure, got {:?}", other),
    }
    // the region stays readable
    assert_eq!(p.raw_read(addr, 1).unwrap(), vec![0]);
}

#[test]
fn protect_unmapped_range_fails() {
    let mut p = open_process();
    match p.alter_protection(0x700, 16, Protections::ReadWrite) {
        Err(MemError::ProtectFailure(a, s, st)) => {
            assert_eq!(a, 0x700);
            assert_eq!(s, 16);
            assert_eq!(st, Protections::ReadWrite);
        },
        other => panic!("expected a protect failure, got {:?}", other),
    }
}

#[test]
fn zero_sized_allocation_fails() {
    let mut p = open_process();
    match p.allocate(None, 0, Protections::ReadWrite) {
        Err(MemError::AllocFailure(s, hint)) => {
            assert_eq!(s, 0);
            assert_eq!(hint, None);
        },
        other => panic!("expected an alloc failure, got {:?}", other),
    }
}

#[test]
fn freeing_an_unknown_range_fails() {
    let mut p = open_process();
    match p.raw_virtual_free(0x900, 64) {
        Err(MemError::FreeFailure(a, s)) => {
            assert_eq!(a, 0x900);
            assert_eq!(s, 64);
        },
        other => panic!("expected a free failure, got {:?}", other),
    }
}

#[test]
fn reads_crossing_the_region_end_fail() {
    let mut p = open_process();
    let va = p.allocate(None, 16, Protections::ReadWrite).unwrap();
    let addr = va.get_addr();
    assert!(p.raw_read(addr + 8, 8).is_ok());
    assert!(matches!(p.raw_read(addr + 8, 9), Err(MemError::ReadFailure(_))));
}
