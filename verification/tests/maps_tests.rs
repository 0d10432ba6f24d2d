use xplatform_memory::process::{base_is_readable, size_is_readable, Process, ProcessError};

const MAPS: &str = "\
00400000-00452000 r-xp 00000000 08:02 173521 /usr/bin/game.exe
00452000-00460000 r-xp 00000000 00:00 0
00460000-00470000 r-xp 00000000 00:00 0
00470000-00480000 rw-p 00000000 00:00 0
7f0000000000-7f0000001000 r--p 00000000 08:02 42 /lib/libc.so.6
";

fn process() -> Process {
    Process { pid: 1234 }
}

#[test]
fn module_base_is_start_of_first_line_naming_it() {
    assert!(base_is_readable(MAPS, "game.exe"));
    assert_eq!(process().get_module_base(MAPS, "game.exe"), Ok(0x0040_0000));
    assert_eq!(process().get_module_base(MAPS, "libc"), Ok(0x7f00_0000_0000));
}

#[test]
fn module_base_of_unknown_module_is_not_found() {
    assert_eq!(process().get_module_base(MAPS, "other.dll"), Err(ProcessError::ModuleNotFound));
}

#[test]
fn module_size_extends_over_contiguous_anonymous_executable_mappings() {
    assert!(size_is_readable(MAPS, "game.exe"));
    assert_eq!(process().get_module_size(MAPS, "game.exe"), Ok(0x0046_0000 - 0x0040_0000 + 0x10000));
}

#[test]
fn module_size_stops_at_a_gap_or_other_permissions() {
    let maps = "1000-2000 r-xp 0 0:0 1 /bin/a\n3000-4000 r-xp 0 0:0 0\n";
    assert_eq!(process().get_module_size(maps, "/bin/a"), Ok(0x1000));
    let maps = "1000-2000 r-xp 0 0:0 1 /bin/a\r\n2000-4000 rw-p 0 0:0 0\r\n2000-5000 r-xp 0 0:0 0\n";
    assert_eq!(process().get_module_size(maps, "/bin/a"), Ok(0x1000));
}

#[test]
fn module_size_ignores_short_lines_and_named_mappings() {
    let maps = "1000-2000 r-xp 0 0:0 1 /bin/a\nnoise\n2000-3000 r-xp 0 0:0 0 [heap]\n";
    assert_eq!(process().get_module_size(maps, "/bin/a"), Ok(0x1000));
}

#[test]
fn module_size_of_unknown_module_is_not_found() {
    assert_eq!(process().get_module_size(MAPS, "nothing"), Err(ProcessError::ModuleNotFound));
}

#[test]
fn unreadable_start_address_is_reported_before_the_call() {
    assert!(!base_is_readable("zzzz-1000 r-xp 0 0:0 1 /bin/a\n", "/bin/a"));
    assert!(!size_is_readable("zzzz-1000 r-xp 0 0:0 1 /bin/a\n", "/bin/a"));
    assert!(base_is_readable("zzzz-1000 r-xp 0 0:0 1 /bin/a\n", "/bin/b"));
}

#[test]
fn image_ending_below_its_start_is_reported_before_the_call() {
    assert!(base_is_readable("5000-1000 r-xp 0 0:0 1 /bin/a\n", "/bin/a"));
    assert!(!size_is_readable("5000-1000 r-xp 0 0:0 1 /bin/a\n", "/bin/a"));
}
