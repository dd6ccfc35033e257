use log_atlas::ingest::minidump_injection::{
    absorb, addr_in_any, detect_injected_regions, into_list, is_executable, is_rwx, is_suspicious,
    memory_info_count, module_ranges, note_artifact_hit, note_metadata_entry, note_thread_hit,
    note_thread_without_metadata, overlaps_any, push_reason_once, region_of, risk_rank,
    sort_by_rank, thread_reason_text, Allocation, MemoryInfoEntry,
};
use log_atlas::ingest::minidump_ingest::{ingest, DumpStreams};
use log_atlas::model::{
    ExecArtifactEncoding, ModuleInfo, ProcessExecArtifact, Severity, ThreadInfo,
};
use minidump::format::{MemoryProtection, MemoryState, MemoryType};
use minidump::{Minidump, MinidumpMemoryInfoList};
use std::collections::{HashMap, HashSet};

const COMMIT: u64 = 0x1000;
const RESERVE: u64 = 0x2000;
const PRIVATE: u64 = 0x2_0000;
const IMAGE: u64 = 0x100_0000;
const RWX: u64 = 0x40;
const RX: u64 = 0x20;
const RW: u64 = 0x04;

/// The bytes of a dump whose only stream is a memory-info list.  Each entry
/// gives base, allocation base, size, protection, type and state.
fn dump_with_memory_info(entries: &[[u64; 6]]) -> Vec<u8> {
    let mut b: Vec<u8> = Vec::new();
    b.extend(0x504d_444du32.to_le_bytes());
    b.extend(0x0000_a793u32.to_le_bytes());
    b.extend(1u32.to_le_bytes());
    b.extend(32u32.to_le_bytes());
    b.extend(0u32.to_le_bytes());
    b.extend(0u32.to_le_bytes());
    b.extend(0u64.to_le_bytes());
    b.extend(16u32.to_le_bytes());
    b.extend(((16 + 48 * entries.len()) as u32).to_le_bytes());
    b.extend(44u32.to_le_bytes());
    b.extend(16u32.to_le_bytes());
    b.extend(48u32.to_le_bytes());
    b.extend((entries.len() as u64).to_le_bytes());
    for e in entries {
        b.extend(e[0].to_le_bytes());
        b.extend(e[1].to_le_bytes());
        b.extend((e[3] as u32).to_le_bytes());
        b.extend(0u32.to_le_bytes());
        b.extend(e[2].to_le_bytes());
        b.extend((e[5] as u32).to_le_bytes());
        b.extend((e[3] as u32).to_le_bytes());
        b.extend((e[4] as u32).to_le_bytes());
        b.extend(0u32.to_le_bytes());
    }
    b
}

fn module(name: &str, base: u64, size: u64) -> ModuleInfo {
    ModuleInfo {
        name: name.to_string(),
        base,
        size,
        checksum: 0,
        time_date_stamp: 0,
        file_version: None,
    }
}

fn thread(id: u32, start: Option<u64>) -> ThreadInfo {
    ThreadInfo {
        thread_id: id,
        name: None,
        create_time_filetime: None,
        create_time_unix: None,
        start_address: start,
        suspend_count: 0,
        priority_class: 0,
        priority: 0,
        teb: 0,
        stack_start: 0,
        stack_size: 0,
    }
}

fn artifact_at(address: Option<u64>) -> ProcessExecArtifact {
    ProcessExecArtifact {
        image: "cmd.exe".to_string(),
        command_line: "cmd.exe /c whoami".to_string(),
        encoding: ExecArtifactEncoding::Ascii,
        address,
    }
}

#[test]
fn rwx_region_yields_one_high_risk_finding() {
    let dump = Minidump::read(dump_with_memory_info(&[
        [0x10000, 0x10000, 0x2000, RWX, PRIVATE, COMMIT],
    ])).unwrap();
    let list = dump.get_stream::<MinidumpMemoryInfoList>().unwrap();
    let modules = vec![module("app.exe", 0x40_0000, 0x1000)];
    let out = detect_injected_regions(Some(&list), &modules, &[], &[]);
    assert_eq!(out.len(), 1);
    assert_eq!(out[0].base, 0x10000);
    assert_eq!(out[0].size, 0x2000);
    assert_eq!(out[0].risk, Severity::High);
    assert!(out[0].reasons.iter().any(|r| r == "RWX protection"));
    assert_eq!(
        out[0].reasons,
        vec![
            "committed private executable memory not backed by a module".to_string(),
            "RWX protection".to_string(),
        ]
    );
}

#[test]
fn flags_are_reported_as_the_reader_names_them() {
    let dump = Minidump::read(dump_with_memory_info(&[
        [0x10000, 0x10000, 0x1000, RWX, PRIVATE, COMMIT],
        [0x11000, 0x10000, 0x1000, RX | 0x100, PRIVATE, COMMIT],
    ])).unwrap();
    let list = dump.get_stream::<MinidumpMemoryInfoList>().unwrap();
    let out = detect_injected_regions(Some(&list), &[], &[], &[]);
    assert_eq!(out.len(), 1);
    assert_eq!(
        out[0].protection,
        "MemoryProtection(PAGE_EXECUTE_READ | PAGE_EXECUTE_READWRITE | PAGE_GUARD)"
    );
    assert_eq!(out[0].ty, "MemoryType(MEM_PRIVATE)");
    assert_eq!(out[0].state, "MemoryState(MEM_COMMIT)");
}

#[test]
fn executable_region_without_write_is_a_warning() {
    let dump = Minidump::read(dump_with_memory_info(&[
        [0x10000, 0x10000, 0x1000, RX, PRIVATE, COMMIT],
    ])).unwrap();
    let list = dump.get_stream::<MinidumpMemoryInfoList>().unwrap();
    let out = detect_injected_regions(Some(&list), &[], &[], &[]);
    assert_eq!(out.len(), 1);
    assert_eq!(out[0].risk, Severity::Warning);
    assert_eq!(
        out[0].reasons,
        vec!["committed private executable memory not backed by a module".to_string()]
    );
}

#[test]
fn regions_that_are_not_suspicious_are_left_out() {
    let dump = Minidump::read(dump_with_memory_info(&[
        [0x10000, 0x10000, 0x1000, RW, PRIVATE, COMMIT],
        [0x20000, 0x20000, 0x1000, RWX, IMAGE, COMMIT],
        [0x30000, 0x30000, 0x1000, RWX, PRIVATE, RESERVE],
        [0x40_0800, 0x40_0000, 0x1000, RWX, PRIVATE, COMMIT],
    ])).unwrap();
    let list = dump.get_stream::<MinidumpMemoryInfoList>().unwrap();
    let modules = vec![module("app.exe", 0x40_0000, 0x1000)];
    let out = detect_injected_regions(Some(&list), &modules, &[], &[]);
    assert!(out.is_empty());
}

#[test]
fn regions_of_one_allocation_are_gathered() {
    let dump = Minidump::read(dump_with_memory_info(&[
        [0x10000, 0x10000, 0x1000, RX, PRIVATE, COMMIT],
        [0x11000, 0x10000, 0x3000, RWX, PRIVATE, COMMIT],
        [0x10000, 0x10000, 0x1000, RX, PRIVATE, COMMIT],
    ])).unwrap();
    let list = dump.get_stream::<MinidumpMemoryInfoList>().unwrap();
    assert_eq!(memory_info_count(&list), 3);
    let out = detect_injected_regions(Some(&list), &[], &[], &[]);
    assert_eq!(out.len(), 1);
    assert_eq!(out[0].base, 0x10000);
    assert_eq!(out[0].size, 0x4000);
    assert_eq!(out[0].risk, Severity::High);
    assert_eq!(out[0].reasons.len(), 2);
}

#[test]
fn size_is_capped() {
    let dump = Minidump::read(dump_with_memory_info(&[
        [0x10000, 0x10000, u64::MAX - 5, RX, PRIVATE, COMMIT],
        [0x20000, 0x10000, 0x1000, RX, PRIVATE, COMMIT],
    ])).unwrap();
    let list = dump.get_stream::<MinidumpMemoryInfoList>().unwrap();
    let out = detect_injected_regions(Some(&list), &[], &[], &[]);
    assert_eq!(out.len(), 1);
    assert_eq!(out[0].size, u64::MAX);
}

#[test]
fn thread_inside_a_module_is_ignored() {
    let dump = Minidump::read(dump_with_memory_info(&[
        [0x40_0000, 0x40_0000, 0x1000, RX, IMAGE, COMMIT],
    ])).unwrap();
    let list = dump.get_stream::<MinidumpMemoryInfoList>().unwrap();
    let modules = vec![module("app.exe", 0x40_0000, 0x1000)];
    let threads = vec![thread(7, Some(0x40_0000)), thread(8, Some(0x40_0FFF)), thread(9, None)];
    assert!(detect_injected_regions(Some(&list), &modules, &threads, &[]).is_empty());
    assert!(detect_injected_regions(None, &modules, &threads, &[]).is_empty());
}

#[test]
fn thread_outside_the_modules_raises_the_risk() {
    let dump = Minidump::read(dump_with_memory_info(&[
        [0x50000, 0x50000, 0x1000, RX, PRIVATE, COMMIT],
        [0x60000, 0x60000, 0x2000, RW, PRIVATE, COMMIT],
    ])).unwrap();
    let list = dump.get_stream::<MinidumpMemoryInfoList>().unwrap();
    let modules = vec![module("app.exe", 0x40_0000, 0x1000)];
    let threads = vec![
        thread(0x1A2B, Some(0x50010)),
        thread(0x1A2C, Some(0x60100)),
        thread(0x1A2D, Some(0x90000)),
        thread(0x1A2E, Some(0x40_1000)),
    ];
    let out = detect_injected_regions(Some(&list), &modules, &threads, &[]);
    assert_eq!(out.len(), 2);
    assert_eq!(out[0].base, 0x60000);
    assert_eq!(out[0].size, 0x2000);
    assert_eq!(out[0].risk, Severity::High);
    assert_eq!(
        out[0].reasons,
        vec!["thread start outside modules: tid=0x1A2C start=0x0000000000060100".to_string()]
    );
    assert_eq!(out[0].protection, "MemoryProtection(PAGE_READWRITE)");
    assert_eq!(out[1].base, 0x50000);
    assert_eq!(out[1].size, 0x1000);
    assert_eq!(out[1].risk, Severity::High);
    assert_eq!(
        out[1].reasons,
        vec![
            "committed private executable memory not backed by a module".to_string(),
            "thread start outside modules: tid=0x1A2B start=0x0000000000050010".to_string(),
        ]
    );
}

#[test]
fn artifact_outside_the_modules_is_noted_without_raising_the_risk() {
    let dump = Minidump::read(dump_with_memory_info(&[
        [0x70000, 0x70000, 0x1000, RW, PRIVATE, COMMIT],
    ])).unwrap();
    let list = dump.get_stream::<MinidumpMemoryInfoList>().unwrap();
    let modules = vec![module("app.exe", 0x40_0000, 0x1000)];
    let artifacts = vec![
        artifact_at(Some(0x70020)),
        artifact_at(Some(0x70040)),
        artifact_at(Some(0x40_0010)),
        artifact_at(Some(0x99_0000)),
        artifact_at(None),
    ];
    let out = detect_injected_regions(Some(&list), &modules, &[], &artifacts);
    assert_eq!(out.len(), 1);
    assert_eq!(out[0].base, 0x70000);
    assert_eq!(out[0].size, 0x1000);
    assert_eq!(out[0].risk, Severity::Warning);
    assert_eq!(
        out[0].reasons,
        vec!["recovered execution artifact string points into this allocation".to_string()]
    );
}

#[test]
fn high_risk_sorts_before_warning() {
    let dump = Minidump::read(dump_with_memory_info(&[
        [0x30000, 0x30000, 0x1000, RX, PRIVATE, COMMIT],
        [0x10000, 0x10000, 0x2000, RWX, PRIVATE, COMMIT],
    ])).unwrap();
    let list = dump.get_stream::<MinidumpMemoryInfoList>().unwrap();
    let out = detect_injected_regions(Some(&list), &[], &[], &[]);
    assert_eq!(out.len(), 2);
    assert_eq!(out[0].risk, Severity::High);
    assert_eq!(out[0].size, 0x2000);
    assert_eq!(out[1].risk, Severity::Warning);
    assert_eq!(out[1].size, 0x1000);
}

#[test]
fn ranking_is_by_risk_then_size_then_base() {
    let dump = Minidump::read(dump_with_memory_info(&[
        [0x90000, 0x90000, 0x1000, RX, PRIVATE, COMMIT],
        [0x80000, 0x80000, 0x1000, RX, PRIVATE, COMMIT],
        [0x70000, 0x70000, 0x8000, RX, PRIVATE, COMMIT],
        [0x60000, 0x60000, 0x1000, RWX, PRIVATE, COMMIT],
        [0x50000, 0x50000, 0x3000, RWX, PRIVATE, COMMIT],
    ])).unwrap();
    let list = dump.get_stream::<MinidumpMemoryInfoList>().unwrap();
    let out = detect_injected_regions(Some(&list), &[], &[], &[]);
    let bases: Vec<u64> = out.iter().map(|r| r.base).collect();
    assert_eq!(bases, vec![0x50000, 0x60000, 0x70000, 0x80000, 0x90000]);
}

#[test]
fn without_metadata_thread_starts_are_reported() {
    let modules = vec![module("app.exe", 0x40_0000, 0x1000)];
    let threads = vec![
        thread(3, Some(0x90000)),
        thread(4, Some(0x50000)),
        thread(5, Some(0x90000)),
        thread(6, Some(0x40_0100)),
        thread(7, None),
    ];
    let out = detect_injected_regions(None, &modules, &threads, &[artifact_at(Some(0x1234))]);
    assert_eq!(out.len(), 2);
    assert_eq!(out[0].base, 0x50000);
    assert_eq!(out[0].size, 0);
    assert_eq!(out[0].risk, Severity::High);
    assert_eq!(out[0].protection, "unknown (MemoryInfoListStream missing)");
    assert_eq!(out[0].ty, "unknown");
    assert_eq!(out[0].state, "unknown");
    assert_eq!(
        out[0].reasons,
        vec!["thread start outside modules: tid=0x4 start=0x0000000000050000".to_string()]
    );
    assert_eq!(out[1].base, 0x90000);
    assert_eq!(
        out[1].reasons,
        vec![
            "thread start outside modules: tid=0x3 start=0x0000000000090000".to_string(),
            "thread start outside modules: tid=0x5 start=0x0000000000090000".to_string(),
        ]
    );
}

#[test]
fn the_same_reason_is_given_once() {
    let threads = vec![thread(3, Some(0x90000)), thread(3, Some(0x90000))];
    let out = detect_injected_regions(None, &[], &threads, &[]);
    assert_eq!(out.len(), 1);
    assert_eq!(out[0].reasons.len(), 1);
    let mut reasons = vec!["a".to_string()];
    push_reason_once(&mut reasons, "b".to_string());
    push_reason_once(&mut reasons, "a".to_string());
    push_reason_once(&mut reasons, "b".to_string());
    assert_eq!(reasons, vec!["a".to_string(), "b".to_string()]);
}

#[test]
fn empty_metadata_differs_from_no_metadata() {
    let dump = Minidump::read(dump_with_memory_info(&[])).unwrap();
    let list = dump.get_stream::<MinidumpMemoryInfoList>().unwrap();
    let threads = vec![thread(3, Some(0x90000))];
    assert!(detect_injected_regions(Some(&list), &[], &threads, &[]).is_empty());
    assert_eq!(detect_injected_regions(None, &[], &threads, &[]).len(), 1);
}

#[test]
fn module_range_ends_before_base_plus_size() {
    let modules = vec![module("a", 0x1000, 0x100), module("b", u64::MAX - 0xF, 0x100)];
    let ranges = module_ranges(&modules);
    assert_eq!(ranges, vec![(0x1000, 0x100), (u64::MAX - 0xF, 0x100)]);
    assert!(addr_in_any(&ranges, 0x1000));
    assert!(addr_in_any(&ranges, 0x10FF));
    assert!(!addr_in_any(&ranges, 0x1100));
    assert!(!addr_in_any(&ranges, 0xFFF));
    assert!(addr_in_any(&ranges, u64::MAX));
    assert!(!addr_in_any(&[], 0x1000));
}

#[test]
fn overlap_with_a_module() {
    let ranges = vec![(0x1000u64, 0x100u64)];
    assert!(overlaps_any(&ranges, 0x1000, 0x10));
    assert!(overlaps_any(&ranges, 0xFF0, 0x11));
    assert!(!overlaps_any(&ranges, 0xFF0, 0x10));
    assert!(overlaps_any(&ranges, 0x10FF, 1));
    assert!(!overlaps_any(&ranges, 0x1100, 0x10));
    assert!(overlaps_any(&ranges, 0, u64::MAX));
    assert!(overlaps_any(&ranges, 0x1080, 0));
    assert!(!overlaps_any(&ranges, 0x1000, 0));
    assert!(overlaps_any(&ranges, 0x1080, u64::MAX));
}

#[test]
fn protection_bits() {
    assert!(is_executable(0x10));
    assert!(is_executable(0x20));
    assert!(is_executable(0x40));
    assert!(is_executable(0x80));
    assert!(is_executable(0x110));
    assert!(!is_executable(0x104));
    assert!(!is_executable(0x04));
    assert!(!is_executable(0x100));
    assert!(is_rwx(0x40));
    assert!(is_rwx(0x140));
    assert!(!is_rwx(0x20));
    assert!(!is_rwx(0x80));
}

#[test]
fn suspicious_records() {
    let e = MemoryInfoEntry {
        base_address: 0x5000,
        allocation_base: 0x5000,
        region_size: 0x1000,
        protection: 0x20,
        ty: 0x2_0000,
        state: 0x1000,
    };
    assert!(is_suspicious(&e, &[]));
    assert!(!is_suspicious(&e, &[(0x5800, 0x10)]));
    assert!(!is_suspicious(&MemoryInfoEntry { state: 0x2000, ..e }, &[]));
    assert!(!is_suspicious(&MemoryInfoEntry { ty: 0x4_0000, ..e }, &[]));
    assert!(!is_suspicious(&MemoryInfoEntry { protection: 0x04, ..e }, &[]));
}

#[test]
fn ranks() {
    assert_eq!(risk_rank(Severity::High), 0);
    assert_eq!(risk_rank(Severity::Warning), 1);
    assert_eq!(risk_rank(Severity::Info), 2);
}

#[test]
fn reason_for_a_thread() {
    assert_eq!(
        thread_reason_text(0xABC, 0x7FF6_1234_5678),
        "thread start outside modules: tid=0xABC start=0x00007FF612345678"
    );
    assert_eq!(
        thread_reason_text(0, u64::MAX),
        "thread start outside modules: tid=0x0 start=0xFFFFFFFFFFFFFFFF"
    );
}

#[test]
fn lookup_leaves_out_records_that_overlap_an_earlier_one() {
    // The second record overlaps the first and is not found by address; a
    // thread that starts in its tail is filed nowhere.
    let dump = Minidump::read(dump_with_memory_info(&[
        [0x10000, 0x10000, 0x2000, RW, PRIVATE, COMMIT],
        [0x11000, 0x11000, 0x3000, RW, PRIVATE, COMMIT],
    ])).unwrap();
    let list = dump.get_stream::<MinidumpMemoryInfoList>().unwrap();
    let threads = vec![thread(1, Some(0x11800)), thread(2, Some(0x13000))];
    let out = detect_injected_regions(Some(&list), &[], &threads, &[]);
    assert_eq!(out.len(), 1);
    assert_eq!(out[0].base, 0x10000);
    assert_eq!(out[0].reasons.len(), 1);
}

#[test]
fn high_risk_allocation_is_detected_first() {
    let dump = Minidump::read(dump_with_memory_info(&[
        [0x30000, 0x30000, 0x1000, RX, PRIVATE, COMMIT],
        [0x10000, 0x10000, 0x2000, RWX, PRIVATE, COMMIT],
    ])).unwrap();
    let list = dump.get_stream::<MinidumpMemoryInfoList>().unwrap();
    let streams = DumpStreams {
        file_size: 1,
        time_date_stamp: 0,
        os: None,
        cpu: None,
        threads: None,
        modules: None,
        misc: None,
        memory: None,
        memory64: None,
        exception: None,
    };
    let made = ingest("x.dmp", streams, Some(&list), Err("no walk".to_string()));
    assert_eq!(made.report.memory_info_region_count, Some(2));
    let found = made.report.detections();
    assert_eq!(found.len(), 2);
    assert_eq!(found[0].severity, Severity::High);
    assert_eq!(found[0].title, "Suspicious executable memory allocation");
    assert_eq!(
        found[0].details,
        "base=0x0000000000010000 size=0x2000\nprotection=MemoryProtection(PAGE_EXECUTE_READWRITE)\ntype=MemoryType(MEM_PRIVATE)\nstate=MemoryState(MEM_COMMIT)\n\nReasons:\n- committed private executable memory not backed by a module\n- RWX protection"
    );
    assert_eq!(found[1].severity, Severity::Warning);
    assert!(found[1].details.starts_with("base=0x0000000000030000 size=0x1000\n"));
    let events = made.events.iter();
    assert_eq!(events.len(), 5);
    assert_eq!(events[3].title, "Detection: Suspicious executable memory allocation");
    assert_eq!(events[3].severity, Severity::High);
    assert_eq!(events[3].t_ms, 25);
    assert_eq!(events[4].severity, Severity::Warning);
    assert_eq!(events[4].t_ms, 30);
}

fn record(base: u64, allocation_base: u64, size: u64, protection: u32) -> MemoryInfoEntry {
    MemoryInfoEntry {
        base_address: base,
        allocation_base,
        region_size: size,
        protection,
        ty: 0x2_0000,
        state: 0x1000,
    }
}

#[test]
fn records_are_merged_into_an_accumulator() {
    let mut a = Allocation::new(0x1000);
    assert_eq!(a.base, 0x1000);
    assert_eq!(a.size, 0);
    assert_eq!(a.risk, Severity::Warning);
    assert!(a.reasons.is_empty());
    absorb(&mut a, &record(0x1000, 0x1000, 0x100, 0x20));
    absorb(&mut a, &record(0x2000, 0x1000, 0x200, 0x04));
    absorb(&mut a, &record(0x1000, 0x1000, 0x400, 0x100));
    assert_eq!(a.base, 0x1000);
    assert_eq!(a.size, 0x300);
    assert_eq!(a.prot_bits, 0x124);
    assert_eq!(a.ty_bits, 0x2_0000);
    assert_eq!(a.state_bits, 0x1000);
    assert_eq!(a.seen_region_bases, HashSet::from([0x1000, 0x2000]));
    assert_eq!(a.risk, Severity::Warning);
}

#[test]
fn hits_are_filed_under_their_allocation() {
    let mut acc: HashMap<u64, Allocation> = HashMap::new();
    note_artifact_hit(&mut acc, &record(0x5000, 0x4000, 0x80, 0x04));
    assert_eq!(acc.len(), 1);
    assert_eq!(acc[&0x4000].base, 0x4000);
    assert_eq!(acc[&0x4000].size, 0x80);
    assert_eq!(acc[&0x4000].risk, Severity::Warning);
    note_thread_hit(&mut acc, &record(0x5000, 0x4000, 0x80, 0x20), 0xAB, 0x5010);
    assert_eq!(acc.len(), 1);
    assert_eq!(acc[&0x4000].size, 0x80);
    assert_eq!(acc[&0x4000].prot_bits, 0x24);
    assert_eq!(acc[&0x4000].risk, Severity::High);
    note_metadata_entry(&mut acc, &record(0x9000, 0x9000, 0x10, 0x40));
    note_metadata_entry(&mut acc, &record(0x6000, 0x4000, 0x20, 0x10));
    note_thread_without_metadata(&mut acc, 7, 0x7777);
    assert_eq!(acc.len(), 3);
    assert_eq!(acc[&0x4000].size, 0xA0);
    assert_eq!(
        acc[&0x4000].reasons,
        vec![
            "recovered execution artifact string points into this allocation".to_string(),
            "thread start outside modules: tid=0xAB start=0x0000000000005010".to_string(),
            "committed private executable memory not backed by a module".to_string(),
        ]
    );
    assert_eq!(acc[&0x9000].base, 0x9000);
    assert_eq!(acc[&0x9000].risk, Severity::High);
    assert_eq!(
        acc[&0x9000].reasons,
        vec![
            "committed private executable memory not backed by a module".to_string(),
            "RWX protection".to_string(),
        ]
    );
    assert_eq!(acc[&0x7777].base, 0x7777);
    assert_eq!(acc[&0x7777].size, 0);
    assert_eq!(acc[&0x7777].risk, Severity::High);
    let sorted = sort_by_rank(into_list(acc));
    let bases: Vec<u64> = sorted.iter().map(|a| a.base).collect();
    assert_eq!(bases, vec![0x4000, 0x9000, 0x7777]);
}

#[test]
fn the_list_of_a_map_holds_each_accumulator_once() {
    let mut acc: HashMap<u64, Allocation> = HashMap::new();
    for base in [0x3000u64, 0x1000, 0x2000, 0x1000, 0x3000] {
        note_metadata_entry(&mut acc, &record(base, base, 0x10, 0x20));
    }
    let mut bases: Vec<u64> = into_list(acc).iter().map(|a| a.base).collect();
    bases.sort();
    assert_eq!(bases, vec![0x1000, 0x2000, 0x3000]);
    assert!(into_list(HashMap::new()).is_empty());
}

#[test]
fn finding_of_an_accumulator() {
    let mut a = Allocation::new(0x4000);
    absorb(&mut a, &record(0x4000, 0x4000, 0x80, 0x40));
    push_reason_once(&mut a.reasons, "why".to_string());
    a.risk = Severity::High;
    let r = region_of(a, "p".to_string(), "t".to_string(), "s".to_string());
    assert_eq!(r.base, 0x4000);
    assert_eq!(r.size, 0x80);
    assert_eq!(r.protection, "p");
    assert_eq!(r.ty, "t");
    assert_eq!(r.state, "s");
    assert_eq!(r.reasons, vec!["why".to_string()]);
    assert_eq!(r.risk, Severity::High);
}

#[test]
fn protection_bits_agree_with_the_flags_of_the_reader() {
    let execute = MemoryProtection::PAGE_EXECUTE
        | MemoryProtection::PAGE_EXECUTE_READ
        | MemoryProtection::PAGE_EXECUTE_READWRITE
        | MemoryProtection::PAGE_EXECUTE_WRITECOPY;
    for bits in 0u32..0x1000 {
        let flags = MemoryProtection::from_bits_truncate(bits);
        assert_eq!(is_executable(bits), flags.intersects(execute));
        assert_eq!(is_rwx(bits), flags.contains(MemoryProtection::PAGE_EXECUTE_READWRITE));
    }
}

#[test]
fn state_and_type_bits_agree_with_the_flags_of_the_reader() {
    for shift in 0..32 {
        for other in [0u32, 0x1000, 0x2_0000, 0x1_0000, 0x100_0000] {
            let bits = (1u32 << shift) | other;
            let committed = MemoryState::from_bits_truncate(bits).contains(MemoryState::MEM_COMMIT);
            let private = MemoryType::from_bits_truncate(bits).contains(MemoryType::MEM_PRIVATE);
            let e = MemoryInfoEntry {
                base_address: 0x5000,
                allocation_base: 0x5000,
                region_size: 0x1000,
                protection: 0x20,
                ty: 0x2_0000,
                state: bits,
            };
            assert_eq!(is_suspicious(&e, &[]), committed);
            let e = MemoryInfoEntry { ty: bits, state: 0x1000, ..e };
            assert_eq!(is_suspicious(&e, &[]), private);
        }
    }
}
