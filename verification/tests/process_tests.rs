use xplatform_memory::process::{scan_is_addressable, ProcEntry, Process, ProcessError};

fn entry(name: &str, cmdline: Option<&str>) -> ProcEntry {
    ProcEntry { name: name.to_string(), cmdline: cmdline.map(|c| c.to_string()) }
}

#[test]
fn new_finds_first_process_with_the_executable_name() {
    let entries = vec![
        entry("self", Some("/usr/bin/game.exe\0")),
        entry("12", None),
        entry("40", Some("/usr/bin/bash\0-l\0")),
        entry("41", Some("Z:\\games\\TFOC.EXE\0--fullscreen\0")),
        entry("42", Some("/usr/bin/tfoc.exe\0")),
    ];
    assert_eq!(Process::new("TFOC.exe", &entries), Ok(Process { pid: 41 }));
}

#[test]
fn new_compares_only_the_last_path_component_of_the_first_argument() {
    let entries = vec![entry("7", Some("wine\0C:/x/TFOC.exe\0")), entry("8", Some("C:/x/TFOC.exe"))];
    assert_eq!(Process::new("tfoc.exe", &entries), Ok(Process { pid: 8 }));
}

#[test]
fn new_reports_a_missing_process() {
    let entries = vec![entry("1", Some("/sbin/init\0")), entry("+2x", Some("game\0"))];
    assert_eq!(Process::new("game", &entries), Err(ProcessError::ProcessNotFound));
    assert_eq!(Process::new("game", &vec![]), Err(ProcessError::ProcessNotFound));
}

#[test]
fn new_reads_process_ids_as_decimal_i32() {
    let entries = vec![
        entry("2147483648", Some("game\0")),
        entry("+2147483647", Some("game\0")),
    ];
    assert_eq!(Process::new("game", &entries), Ok(Process { pid: 2147483647 }));
    assert_eq!(Process::new("game", &vec![entry("-5", Some("game"))]), Ok(Process { pid: -5 }));
}

#[test]
fn scan_module_gives_address_of_first_match() {
    let memory = [0u8, 0xAA, 0xBB, 0xAA, 0xBB];
    let p = Process { pid: 1 };
    assert!(scan_is_addressable(0x1000, &memory, "AA BB"));
    assert_eq!(p.scan_module(0x1000, &memory, "AA BB"), Ok(0x1001));
    assert_eq!(p.scan_module(0x1000, &memory, "?? BB"), Ok(0x1001));
}

#[test]
fn scan_module_reports_a_missing_pattern() {
    let memory = [0u8, 1, 2];
    let p = Process { pid: 1 };
    assert_eq!(p.scan_module(0x1000, &memory, "03"), Err(ProcessError::PatternNotFound));
    assert_eq!(p.scan_module(0x1000, &memory, ""), Err(ProcessError::PatternNotFound));
}

#[test]
fn scan_address_that_overflows_is_reported_before_the_call() {
    let memory = [0u8, 1, 2];
    assert!(!scan_is_addressable(usize::MAX, &memory, "01"));
    assert!(scan_is_addressable(usize::MAX, &memory, "00"));
    assert!(scan_is_addressable(usize::MAX, &memory, "07"));
}

#[test]
fn new_finds_executables_with_names_longer_than_fifteen_characters() {
    let entries = vec![entry("900", Some("Z:\\steam\\TWFC_steamless.exe\0"))];
    assert_eq!(Process::new("TWFC_steamless.exe", &entries), Ok(Process { pid: 900 }));
}
