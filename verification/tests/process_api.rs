use poggers::errors::{ModuleError, ProcessError, ScanError, U32OrString};
use poggers::process::{ModuleEntry, Process, ProcessEntry, ProcessList};
use poggers::protections::Protections;

fn sample_procs() -> Vec<ProcessEntry> {
    vec![
        ProcessEntry { pid: 4, exe_path: String::from("init") },
        ProcessEntry { pid: 77, exe_path: String::from("game.exe") },
        ProcessEntry { pid: 78, exe_path: String::from("game.exe") },
        ProcessEntry { pid: 77, exe_path: String::from("other-name") },
    ]
}

#[test]
fn test_list() {
    let list = ProcessList::get_list().unwrap();
    println!("{:#?}", list);
}

#[test]
fn find_from_pid_takes_the_first_entry() {
    let procs = sample_procs();
    let p = Process::find_from_pid(77, &procs).unwrap();
    assert_eq!(p.pid, 77);
    assert_eq!(p.name, "game.exe");
}

#[test]
fn find_from_pid_unknown_pid_fails() {
    let procs = sample_procs();
    match Process::find_from_pid(9999, &procs) {
        Err(ProcessError::UnableToOpenProcess(U32OrString::U32(pid))) => assert_eq!(pid, 9999),
        other => panic!("expected an open failure, got {:?}", other),
    }
}

#[test]
fn find_by_name_first_match_wins() {
    let procs = sample_procs();
    let p = Process::find_by_name("game.exe", &procs).unwrap();
    assert_eq!(p.pid, 77);
    // resolution goes back through the pid, as the pid lookup does
    assert_eq!(p.name, "game.exe");
}

#[test]
fn find_by_name_resolves_the_display_name_by_pid() {
    let procs = sample_procs();
    // pid 77 is listed twice; matching the later alias still resolves the
    // handle through the pid, so the name comes from the first pid entry
    let p = Process::find_by_name("other-name", &procs).unwrap();
    assert_eq!(p.pid, 77);
    assert_eq!(p.name, "game.exe");
}

#[test]
fn find_by_name_unknown_name_fails() {
    let procs = sample_procs();
    match Process::find_by_name("absent.exe", &procs) {
        Err(ProcessError::UnableToFindProcess(U32OrString::Str(s))) => assert_eq!(s, "absent.exe"),
        other => panic!("expected a find failure, got {:?}", other),
    }
}

#[test]
fn clone_copies_the_handle() {
    let procs = sample_procs();
    let p = Process::find_from_pid(4, &procs).unwrap();
    let q = p.clone();
    assert_eq!(q.pid, p.pid);
    assert_eq!(q.name, p.name);
}

#[test]
fn get_module_resolves_first_match() {
    let procs = sample_procs();
    let p = Process::find_from_pid(77, &procs).unwrap();
    let mods = vec![
        ModuleEntry { name: String::from("game.exe"), base_address: 0x400000, size: 0x1000, handle: 11 },
        ModuleEntry { name: String::from("user32.dll"), base_address: 0x7FF0000, size: 0x800, handle: 12 },
        ModuleEntry { name: String::from("user32.dll"), base_address: 0x8000000, size: 0x900, handle: 13 },
    ];
    let m = p.get_module("user32.dll", &mods).unwrap();
    assert_eq!(m.base_address, 0x7FF0000);
    assert_eq!(m.size, 0x800);
    assert_eq!(m.handle, 12);
    assert_eq!(m.owner_pid, 77);
    match p.get_module("absent.dll", &mods) {
        Err(ModuleError::NoModuleFound(s)) => assert_eq!(s, "absent.dll"),
        other => panic!("expected a module failure, got {:?}", other),
    }
}

#[test]
fn module_scan_returns_absolute_addresses() {
    let procs = sample_procs();
    let mut p = Process::find_from_pid(77, &procs).unwrap();
    let va = p.allocate(None, 8, Protections::ReadWrite).unwrap();
    let base = va.get_addr();
    p.raw_write(base, &[0x00u8, 0x90, 0x90, 0x90, 0xCC, 0x00, 0x00, 0x00]).unwrap();
    let m = ModuleEntry { name: String::from("image"), base_address: base, size: 8, handle: 1 };
    let module = p.get_module("image", &vec![m]).unwrap();
    assert_eq!(module.scan(&p, "90 90 90").unwrap(), Some(base + 1));
    assert_eq!(module.scan(&p, "90 ?? CC").unwrap(), Some(base + 2));
    assert_eq!(module.scan(&p, "AA BB").unwrap(), None);
    assert_eq!(module.scan(&p, "9 0 ??").unwrap_err(), ScanError::InvalidPattern);
}

#[test]
fn module_scan_of_unmapped_image_fails() {
    let procs = sample_procs();
    let p = Process::find_from_pid(77, &procs).unwrap();
    let m = ModuleEntry { name: String::from("gone"), base_address: 0x123000, size: 16, handle: 2 };
    let module = p.get_module("gone", &vec![m]).unwrap();
    match module.scan(&p, "90") {
        Err(ScanError::UnreadableRegion(a)) => assert_eq!(a, 0x123000),
        other => panic!("expected an unreadable-region failure, got {:?}", other),
    }
}
