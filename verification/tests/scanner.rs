use log_atlas::ingest::minidump_exec::{
    dedup_artifacts, extract_exec_artifacts, indicator_table, inspected_len, inspected_lengths,
    is_ascii_printable, is_likely_command_line, normalize_cmd_key, parse_image, scan_ascii,
    scan_region, scan_utf16le, MemoryRegion, MAX_ARTIFACTS, MAX_SCAN_BYTES,
};
use log_atlas::model::{ExecArtifactEncoding, ProcessExecArtifact};

fn region(base: u64, bytes: &[u8]) -> MemoryRegion {
    MemoryRegion { base_address: base, bytes: bytes.to_vec() }
}

fn wide(text: &str) -> Vec<u8> {
    let mut out = Vec::new();
    for b in text.bytes() {
        out.push(b);
        out.push(0);
    }
    out
}

fn artifact(command_line: &str) -> ProcessExecArtifact {
    ProcessExecArtifact {
        image: parse_image(command_line),
        command_line: command_line.to_string(),
        encoding: ExecArtifactEncoding::Ascii,
        address: None,
    }
}

#[test]
fn ascii_command_line_yields_one_artifact() {
    let regions = vec![region(0x1000, b"\0\0cmd.exe /c whoami\0\0")];
    let found = extract_exec_artifacts(Some(&regions), None);
    assert_eq!(found.len(), 1);
    assert_eq!(found[0].encoding, ExecArtifactEncoding::Ascii);
    assert_eq!(found[0].image, "cmd.exe");
    assert_eq!(found[0].command_line, "cmd.exe /c whoami");
    assert_eq!(found[0].address, Some(0x1002));
}

#[test]
fn utf16_command_line_yields_one_artifact() {
    let mut bytes = vec![0xFFu8, 0xFF, 0xFF];
    bytes.extend(wide("powershell -nop -w hidden"));
    bytes.extend([0u8, 0u8]);
    let regions = vec![region(0x2000, &bytes)];
    let found = extract_exec_artifacts(Some(&regions), None);
    assert_eq!(found.len(), 1);
    assert_eq!(found[0].encoding, ExecArtifactEncoding::Utf16Le);
    assert_eq!(found[0].image, "powershell");
    assert_eq!(found[0].command_line, "powershell -nop -w hidden");
    assert_eq!(found[0].address, Some(0x2003));
}

#[test]
fn run_shorter_than_twelve_yields_nothing() {
    let regions = vec![region(0, b"\0cmd.exe /c\0")];
    assert!(extract_exec_artifacts(Some(&regions), None).is_empty());
    let regions = vec![region(0, &wide("cmd.exe /c"))];
    assert!(extract_exec_artifacts(Some(&regions), None).is_empty());
}

#[test]
fn run_of_twelve_is_taken() {
    let regions = vec![region(0, b"\0cmd.exe /c x\0")];
    let found = extract_exec_artifacts(Some(&regions), None);
    assert_eq!(found.len(), 1);
    assert_eq!(found[0].command_line, "cmd.exe /c x");
}

#[test]
fn run_longer_than_eight_hundred_yields_nothing() {
    let mut text = String::from("cmd.exe /c ");
    while text.len() < 801 {
        text.push('A');
    }
    let mut bytes = vec![0u8];
    bytes.extend(text.bytes());
    bytes.push(0);
    let regions = vec![region(0, &bytes)];
    assert!(extract_exec_artifacts(Some(&regions), None).is_empty());
    let mut bytes = vec![0u8, 0u8];
    bytes.extend(wide(&text));
    bytes.extend([0u8, 0u8]);
    let regions = vec![region(0, &bytes)];
    assert!(extract_exec_artifacts(Some(&regions), None).is_empty());
}

#[test]
fn run_of_eight_hundred_is_taken() {
    let mut text = String::from("cmd.exe /c ");
    while text.len() < 800 {
        text.push('A');
    }
    let mut bytes = vec![0u8];
    bytes.extend(text.bytes());
    bytes.push(0);
    let regions = vec![region(0, &bytes)];
    let found = extract_exec_artifacts(Some(&regions), None);
    assert_eq!(found.len(), 1);
    assert_eq!(found[0].command_line.len(), 800);
}

#[test]
fn long_wide_run_is_dropped_whole() {
    // Nothing of a run of 1000 characters is taken, not even its tail.
    let mut text = String::new();
    while text.len() < 900 {
        text.push('B');
    }
    text.push_str(" cmd.exe /c whoami and some more text to make it long enough for a tail");
    while text.len() < 1000 {
        text.push('C');
    }
    let regions = vec![region(0, &wide(&text))];
    assert!(extract_exec_artifacts(Some(&regions), None).is_empty());
}

#[test]
fn wide_run_after_a_stray_byte_is_found() {
    // A run that starts at an odd offset, right after a byte that broke the
    // run before it.
    let mut bytes = wide("ab");
    bytes.push(0x01);
    bytes.extend(wide("cmd.exe /c whoami"));
    bytes.extend([0u8, 0u8]);
    let regions = vec![region(0x100, &bytes)];
    let found = extract_exec_artifacts(Some(&regions), None);
    assert_eq!(found.len(), 1);
    assert_eq!(found[0].command_line, "cmd.exe /c whoami");
    assert_eq!(found[0].address, Some(0x105));
}

#[test]
fn same_command_in_two_regions_is_kept_once() {
    let regions = vec![
        region(0x1000, b"\0CMD.EXE   /c  WhoAmI\0"),
        region(0x2000, b"\0cmd.exe /c whoami\0"),
    ];
    let found = extract_exec_artifacts(Some(&regions), None);
    assert_eq!(found.len(), 1);
    assert_eq!(found[0].command_line, "CMD.EXE   /c  WhoAmI");
    assert_eq!(found[0].address, Some(0x1001));
}

#[test]
fn both_encodings_of_one_text_are_kept_once() {
    let mut bytes = b"cmd.exe /c whoami\0\0\0".to_vec();
    bytes.extend(wide("cmd.exe /c whoami"));
    bytes.extend([0u8, 0u8]);
    let regions = vec![region(0, &bytes)];
    let found = extract_exec_artifacts(Some(&regions), None);
    assert_eq!(found.len(), 1);
    assert_eq!(found[0].encoding, ExecArtifactEncoding::Ascii);
}

#[test]
fn ascii_hits_of_a_region_come_before_its_wide_hits() {
    let mut bytes = wide("powershell -enc QQQQ");
    bytes.extend([0u8, 0u8]);
    bytes.extend(b"cmd.exe /c whoami\0");
    let mut out = Vec::new();
    scan_region(&bytes, 0, &indicator_table(), &mut out);
    assert_eq!(out.len(), 2);
    assert_eq!(out[0].encoding, ExecArtifactEncoding::Ascii);
    assert_eq!(out[0].command_line, "cmd.exe /c whoami");
    assert_eq!(out[1].encoding, ExecArtifactEncoding::Utf16Le);
    assert_eq!(out[1].command_line, "powershell -enc QQQQ");
}

#[test]
fn no_more_than_two_hundred_artifacts() {
    let mut bytes = Vec::new();
    for i in 0..250 {
        bytes.extend(format!("cmd.exe /c run{:04}", i).bytes());
        bytes.push(0);
    }
    let regions = vec![region(0, &bytes)];
    let found = extract_exec_artifacts(Some(&regions), None);
    assert_eq!(found.len(), MAX_ARTIFACTS);
    assert_eq!(found[0].command_line, "cmd.exe /c run0000");
    assert_eq!(found[199].command_line, "cmd.exe /c run0199");
}

#[test]
fn cap_is_applied_before_duplicates_are_dropped() {
    let mut bytes = Vec::new();
    for _ in 0..200 {
        bytes.extend(b"cmd.exe /c whoami\0");
    }
    bytes.extend(b"powershell -enc QQQQ\0");
    let regions = vec![region(0, &bytes)];
    let found = extract_exec_artifacts(Some(&regions), None);
    assert_eq!(found.len(), 1);
    assert_eq!(found[0].command_line, "cmd.exe /c whoami");
}

#[test]
fn nothing_is_inspected_beyond_the_byte_limit() {
    let mut first = vec![0u8; MAX_SCAN_BYTES - 8];
    first.extend(b"cmd.exe /c whoami\0");
    let regions = vec![region(0, &first), region(0x1_0000_0000, b"powershell -enc QQQQ\0")];
    let found = extract_exec_artifacts(Some(&regions), None);
    assert!(found.is_empty());
}

#[test]
fn inspection_stops_in_the_middle_of_a_region() {
    let mut first = vec![0u8; MAX_SCAN_BYTES - 18];
    first.extend(b"cmd.exe /c whoami\0");
    first.extend(b"powershell -enc QQQQ\0");
    let regions = vec![region(0, &first)];
    let found = extract_exec_artifacts(Some(&regions), None);
    assert_eq!(found.len(), 1);
    assert_eq!(found[0].command_line, "cmd.exe /c whoami");
    assert_eq!(found[0].address, Some((MAX_SCAN_BYTES - 18) as u64));
}

#[test]
fn the_64_bit_list_is_preferred_and_the_other_is_not_scanned() {
    let memory64 = vec![region(0x1000, b"\0cmd.exe /c whoami\0")];
    let memory = vec![region(0x2000, b"\0powershell -enc QQQQ\0")];
    let found = extract_exec_artifacts(Some(&memory64), Some(&memory));
    assert_eq!(found.len(), 1);
    assert_eq!(found[0].command_line, "cmd.exe /c whoami");
    let found = extract_exec_artifacts(None, Some(&memory));
    assert_eq!(found.len(), 1);
    assert_eq!(found[0].command_line, "powershell -enc QQQQ");
    assert!(extract_exec_artifacts(None, None).is_empty());
    let empty: Vec<MemoryRegion> = Vec::new();
    assert!(extract_exec_artifacts(Some(&empty), Some(&memory)).is_empty());
}

#[test]
fn address_wraps_at_the_end_of_the_address_space() {
    let regions = vec![region(u64::MAX - 1, b"\0\0\0cmd.exe /c whoami\0")];
    let found = extract_exec_artifacts(Some(&regions), None);
    assert_eq!(found.len(), 1);
    assert_eq!(found[0].address, Some(1));
}

#[test]
fn white_space_around_a_run_is_dropped() {
    let regions = vec![region(0x10, b"\0  \tcmd.exe /c whoami \t \0")];
    let found = extract_exec_artifacts(Some(&regions), None);
    assert_eq!(found.len(), 1);
    assert_eq!(found[0].command_line, "cmd.exe /c whoami");
    assert_eq!(found[0].address, Some(0x11));
}

#[test]
fn a_tab_inside_a_command_line_spoils_it() {
    let regions = vec![region(0, b"\0cmd.exe\t/c whoami\0")];
    assert!(extract_exec_artifacts(Some(&regions), None).is_empty());
}

#[test]
fn text_without_indicator_is_no_command_line() {
    let regions = vec![region(0, b"\0The quick brown fox jumps over the lazy dog\0")];
    assert!(extract_exec_artifacts(Some(&regions), None).is_empty());
}

#[test]
fn printable_bytes() {
    assert!(is_ascii_printable(b'\t'));
    assert!(is_ascii_printable(b' '));
    assert!(is_ascii_printable(b'~'));
    assert!(is_ascii_printable(b'A'));
    assert!(!is_ascii_printable(0));
    assert!(!is_ascii_printable(0x1F));
    assert!(!is_ascii_printable(0x7F));
    assert!(!is_ascii_printable(b'\n'));
    assert!(!is_ascii_printable(0x80));
}

#[test]
fn likely_command_lines() {
    assert!(is_likely_command_line("cmd.exe /c whoami"));
    assert!(is_likely_command_line("C:\\Tools\\RUN.EXE -x"));
    assert!(is_likely_command_line("curl http://x.y/z"));
    assert!(is_likely_command_line("/bin/sh -c 'id; uname'"));
    assert!(!is_likely_command_line("cmd.exe /c"));
    assert!(!is_likely_command_line("curlhttp://x.y/zzzz"));
    assert!(!is_likely_command_line("nothing to see here at all"));
    assert!(!is_likely_command_line("cmd.exe /c whoami\u{e9}"));
    assert!(!is_likely_command_line("cmd.exe /c who\u{7f}ami"));
    assert!(!is_likely_command_line("cmd.exe\t/c whoami"));
    let mut long = String::from("cmd.exe ");
    while long.len() < 800 {
        long.push('x');
    }
    assert!(is_likely_command_line(&long));
    long.push('x');
    assert!(!is_likely_command_line(&long));
}

#[test]
fn image_of_a_command_line() {
    assert_eq!(parse_image("cmd.exe /c whoami"), "cmd.exe");
    assert_eq!(parse_image("  cmd.exe\t/c whoami"), "cmd.exe");
    assert_eq!(parse_image("\"C:\\Program Files\\a b.exe\" -x"), "C:\\Program Files\\a b.exe");
    assert_eq!(parse_image("\" spaced.exe \" -x"), "spaced.exe");
    assert_eq!(parse_image("\"unclosed.exe -x"), "\"unclosed.exe");
    assert_eq!(parse_image("\"\" rest"), "");
    assert_eq!(parse_image("single"), "single");
    assert_eq!(parse_image(""), "");
    assert_eq!(parse_image("   "), "");
}

#[test]
fn key_of_a_command_line() {
    assert_eq!(normalize_cmd_key("  CMD.exe   /C \t WhoAmI  "), "cmd.exe /c whoami");
    assert_eq!(normalize_cmd_key("cmd.exe /c whoami"), "cmd.exe /c whoami");
    assert_eq!(normalize_cmd_key(""), "");
    assert_eq!(normalize_cmd_key(" \t "), "");
    assert_eq!(normalize_cmd_key("\u{c9}X"), "\u{c9}x");
    assert_eq!(normalize_cmd_key("a\u{a0}\u{2003}b"), "a b");
}

#[test]
fn duplicates_are_dropped_and_the_first_is_kept() {
    let kept = dedup_artifacts(vec![
        artifact("cmd.exe /c whoami"),
        artifact("powershell -enc QQQQ"),
        artifact("CMD.EXE  /C  WHOAMI"),
        artifact("powershell  -enc  qqqq"),
        artifact("python run.py"),
    ]);
    assert_eq!(kept.len(), 3);
    assert_eq!(kept[0].command_line, "cmd.exe /c whoami");
    assert_eq!(kept[1].command_line, "powershell -enc QQQQ");
    assert_eq!(kept[2].command_line, "python run.py");
}

#[test]
fn dedup_cuts_after_two_hundred() {
    let mut all = Vec::new();
    for i in 0..230 {
        all.push(artifact(&format!("cmd.exe /c run{}", i)));
    }
    let kept = dedup_artifacts(all);
    assert_eq!(kept.len(), 200);
    assert_eq!(kept[199].command_line, "cmd.exe /c run199");
}

#[test]
fn passes_stop_at_the_cap() {
    let table = indicator_table();
    let mut out = Vec::new();
    for i in 0..199 {
        out.push(artifact(&format!("cmd.exe /c run{}", i)));
    }
    scan_ascii(b"cmd.exe /c first\0cmd.exe /c second\0", 0, &table, &mut out);
    assert_eq!(out.len(), 200);
    assert_eq!(out[199].command_line, "cmd.exe /c first");
    scan_utf16le(&wide("cmd.exe /c third"), 0, &table, &mut out);
    assert_eq!(out.len(), 200);
}

#[test]
fn inspected_lengths_stop_at_the_limit() {
    assert_eq!(inspected_len(0, 5), 5);
    assert_eq!(inspected_len(MAX_SCAN_BYTES - 3, 5), 3);
    assert_eq!(inspected_len(MAX_SCAN_BYTES, 5), 0);
    assert_eq!(inspected_len(usize::MAX, usize::MAX), 0);
    assert!(inspected_lengths(&Vec::new()).is_empty());
    assert_eq!(
        inspected_lengths(&vec![10, 0, MAX_SCAN_BYTES - 15, 20, 7]),
        vec![10, 0, MAX_SCAN_BYTES - 15, 5, 0]
    );
    assert_eq!(inspected_lengths(&vec![usize::MAX, 1]), vec![MAX_SCAN_BYTES, 0]);
}

#[test]
fn regions_cut_by_the_inspected_lengths_yield_the_same() {
    let mut first = vec![0u8; MAX_SCAN_BYTES - 25];
    first.extend(b"cmd.exe /c whoami\0");
    first.extend(b"python run.py --and --more\0");
    let second = b"certutil -urlcache -f http://h/x\0".to_vec();
    let whole = vec![region(0x1000, &first), region(0x9000_0000, &second)];
    let takes = inspected_lengths(&vec![first.len(), second.len()]);
    assert_eq!(takes, vec![MAX_SCAN_BYTES, 0]);
    let cut = vec![region(0x1000, &first[..takes[0]]), region(0x9000_0000, &second[..takes[1]])];
    let from_whole = extract_exec_artifacts(Some(&whole), None);
    let from_cut = extract_exec_artifacts(Some(&cut), None);
    assert_eq!(from_whole.len(), 1);
    assert_eq!(from_cut.len(), 1);
    assert_eq!(from_whole[0].command_line, "cmd.exe /c whoami");
    assert_eq!(from_cut[0].command_line, "cmd.exe /c whoami");
    assert_eq!(from_cut[0].address, from_whole[0].address);
}

#[test]
fn regions_cut_to_the_inspected_part_yield_the_same() {
    let mut first = vec![0u8; MAX_SCAN_BYTES - 40];
    first.extend(b"cmd.exe /c whoami\0");
    first.extend(b"powershell -enc QQQQ\0");
    first.extend(b"python run.py --and --more\0");
    let second = b"certutil -urlcache -f http://h/x\0".to_vec();
    let whole = vec![region(0x1000, &first), region(0x9000_0000, &second)];
    let cut = vec![region(0x1000, &first[..MAX_SCAN_BYTES]), region(0x9000_0000, &[])];
    let from_whole = extract_exec_artifacts(Some(&whole), None);
    let from_cut = extract_exec_artifacts(Some(&cut), None);
    assert_eq!(from_whole.len(), 2);
    assert_eq!(from_cut.len(), 2);
    for (a, b) in from_whole.iter().zip(from_cut.iter()) {
        assert_eq!(a.command_line, b.command_line);
        assert_eq!(a.image, b.image);
        assert_eq!(a.address, b.address);
        assert_eq!(a.encoding, b.encoding);
    }
    assert_eq!(from_whole[1].command_line, "powershell -enc QQQQ");
}
