use xplatform_memory::pattern::{parse_pattern, pattern_scan_all};

#[test]
fn parse_pattern_reads_bytes_and_wildcards() {
    assert_eq!(
        parse_pattern("48 8B ?? 05 ? c3"),
        vec![Some(0x48), Some(0x8B), None, Some(0x05), None, Some(0xC3)]
    );
}

#[test]
fn parse_pattern_turns_unreadable_tokens_into_wildcards() {
    assert_eq!(parse_pattern("zz 100 ??? -1"), vec![None, None, None, None]);
}

#[test]
fn parse_pattern_accepts_plus_sign_and_any_whitespace() {
    assert_eq!(parse_pattern(" \t+1f\n\u{a0}0A  "), vec![Some(0x1F), Some(0x0A)]);
}

#[test]
fn parse_pattern_of_blank_text_is_empty() {
    assert_eq!(parse_pattern(""), vec![]);
    assert_eq!(parse_pattern("   \n"), vec![]);
}

#[test]
fn scan_finds_every_match_in_order() {
    let memory = [0x90u8, 0x48, 0x8B, 0x05, 0x48, 0x8B, 0x06, 0x48];
    let pattern = parse_pattern("48 8B ??");
    assert_eq!(pattern_scan_all(&memory, &pattern), vec![1, 4]);
}

#[test]
fn scan_with_exact_pattern_finds_where_bytes_were_taken() {
    let memory = [1u8, 2, 3, 4, 5, 3, 4];
    let pattern: Vec<Option<u8>> = memory[2..4].iter().map(|b| Some(*b)).collect();
    assert_eq!(pattern_scan_all(&memory, &pattern), vec![2, 5]);
}

#[test]
fn scan_with_only_wildcards_matches_everywhere_it_fits() {
    let memory = [7u8, 8, 9, 10];
    assert_eq!(pattern_scan_all(&memory, &[None, None]), vec![0, 1, 2]);
}

#[test]
fn scan_with_empty_pattern_finds_nothing() {
    assert_eq!(pattern_scan_all(&[1u8, 2, 3], &[]), Vec::<usize>::new());
}

#[test]
fn scan_with_pattern_longer_than_memory_finds_nothing() {
    assert_eq!(pattern_scan_all(&[1u8, 2], &[None, None, None]), Vec::<usize>::new());
}

#[test]
fn scan_pattern_as_long_as_memory() {
    assert_eq!(pattern_scan_all(&[1u8, 2], &[Some(1), None]), vec![0]);
    assert_eq!(pattern_scan_all(&[1u8, 2], &[Some(2), None]), Vec::<usize>::new());
}

#[test]
fn a_match_depends_only_on_the_bytes_under_it() {
    let pattern = parse_pattern("DE ?? BE");
    let first = [0xDEu8, 0x00, 0xBE, 0x11];
    let second = [0x55u8, 0x55, 0xDE, 0x00, 0xBE];
    assert_eq!(pattern_scan_all(&first, &pattern), vec![0]);
    assert_eq!(pattern_scan_all(&second, &pattern), vec![2]);
}
