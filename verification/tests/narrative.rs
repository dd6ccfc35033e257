use log_atlas::app::{DetailsTab, LogAtlasApp, UiState};
use std::path::PathBuf;
use log_atlas::ingest::minidump_exec::MemoryRegion;
use log_atlas::ingest::minidump_ingest::{
    extract_modules, extract_process_info, extract_threads, format_exception_stack_preview,
    format_exec_artifacts, format_file_version, format_process_info, format_stackwalk_summary,
    ingest, narrate, try_ingest, DumpStreams, IngestedMinidump, RawMiscInfo, RawModule, RawThread,
    RawThreadInfo,
};
use log_atlas::model::{
    Event, EventId, EventStore, ExceptionInfo, ExecArtifactEncoding, MinidumpReport,
    MinidumpSummary, ModuleInfo, ProcessExecArtifact, ProcessInfo, Severity, StackFrameInfo,
    StackwalkReport, ThreadInfo, ThreadStackTrace,
};

fn frame(index: usize, instruction: u64) -> StackFrameInfo {
    StackFrameInfo {
        index,
        instruction,
        module: None,
        module_base: None,
        module_offset: None,
        function: None,
        function_offset: None,
        source_file: None,
        source_line: None,
        trust: "scan".to_string(),
    }
}

fn trace(thread_id: u32, frames: Vec<StackFrameInfo>) -> ThreadStackTrace {
    ThreadStackTrace {
        thread_id,
        thread_name: None,
        status: "Ok".to_string(),
        is_requesting_thread: false,
        frames,
    }
}

fn event(id: u64, title: &str) -> Event {
    Event {
        id: EventId(id),
        t_ms: 0,
        severity: Severity::Info,
        title: title.to_string(),
        details: String::new(),
        source: String::new(),
    }
}

fn artifact(encoding: ExecArtifactEncoding, image: &str, command_line: &str) -> ProcessExecArtifact {
    ProcessExecArtifact {
        image: image.to_string(),
        command_line: command_line.to_string(),
        encoding,
        address: None,
    }
}

fn no_streams() -> DumpStreams {
    DumpStreams {
        file_size: 0,
        time_date_stamp: 0,
        os: None,
        cpu: None,
        threads: None,
        modules: None,
        misc: None,
        memory: None,
        memory64: None,
        exception: None,
    }
}

fn raw_thread(id: u32, info: Option<RawThreadInfo>) -> RawThread {
    RawThread {
        thread_id: id,
        suspend_count: 1,
        priority_class: 2,
        priority: 3,
        teb: 0x7000,
        stack_start: 0x8000,
        stack_size: 0x100,
        name: None,
        info,
    }
}

#[test]
fn severity_labels() {
    assert_eq!(Severity::Info.label(), "INFO");
    assert_eq!(Severity::Warning.label(), "WARN");
    assert_eq!(Severity::High.label(), "HIGH");
}

#[test]
fn file_version_is_four_numbers() {
    assert_eq!(format_file_version(0, 0), None);
    assert_eq!(format_file_version(0x000A_0000, 0x4A61_0001), Some("10.0.19041.1".to_string()));
    assert_eq!(format_file_version(0, 1), Some("0.0.0.1".to_string()));
    assert_eq!(
        format_file_version(u32::MAX, u32::MAX),
        Some("65535.65535.65535.65535".to_string())
    );
}

#[test]
fn modules_are_taken_over_in_order() {
    let modules = extract_modules(vec![
        RawModule {
            name: "a.exe".to_string(),
            base_of_image: 0x1_4000_0000,
            size_of_image: 0x2000,
            checksum: 7,
            time_date_stamp: 9,
            file_version_hi: 0x0001_0002,
            file_version_lo: 0x0003_0004,
        },
        RawModule {
            name: "b.dll".to_string(),
            base_of_image: 0x7FF0_0000,
            size_of_image: u32::MAX,
            checksum: 0,
            time_date_stamp: 0,
            file_version_hi: 0,
            file_version_lo: 0,
        },
    ]);
    assert_eq!(modules.len(), 2);
    assert_eq!(modules[0].name, "a.exe");
    assert_eq!(modules[0].base, 0x1_4000_0000);
    assert_eq!(modules[0].size, 0x2000);
    assert_eq!(modules[0].checksum, 7);
    assert_eq!(modules[0].time_date_stamp, 9);
    assert_eq!(modules[0].file_version, Some("1.2.3.4".to_string()));
    assert_eq!(modules[1].name, "b.dll");
    assert_eq!(modules[1].size, 0xFFFF_FFFF);
    assert_eq!(modules[1].file_version, None);
}

#[test]
fn threads_are_merged_with_their_extended_information() {
    let mut named = raw_thread(11, Some(RawThreadInfo {
        create_time: 132_223_104_000_000_000,
        start_address: 0x7FF6_0000_1000,
    }));
    named.name = Some("worker".to_string());
    let threads = extract_threads(vec![
        named,
        raw_thread(12, Some(RawThreadInfo { create_time: 0, start_address: 0 })),
        raw_thread(13, None),
    ]);
    assert_eq!(threads.len(), 3);
    assert_eq!(threads[0].thread_id, 11);
    assert_eq!(threads[0].name, Some("worker".to_string()));
    assert_eq!(threads[0].create_time_filetime, Some(132_223_104_000_000_000));
    assert_eq!(threads[0].create_time_unix, Some(1_577_836_800));
    assert_eq!(threads[0].start_address, Some(0x7FF6_0000_1000));
    assert_eq!(threads[0].suspend_count, 1);
    assert_eq!(threads[0].priority_class, 2);
    assert_eq!(threads[0].priority, 3);
    assert_eq!(threads[0].teb, 0x7000);
    assert_eq!(threads[0].stack_start, 0x8000);
    assert_eq!(threads[0].stack_size, 0x100);
    assert_eq!(threads[1].create_time_filetime, Some(0));
    assert_eq!(threads[1].create_time_unix, None);
    assert_eq!(threads[1].start_address, None);
    assert_eq!(threads[2].create_time_filetime, None);
    assert_eq!(threads[2].create_time_unix, None);
    assert_eq!(threads[2].start_address, None);
}

#[test]
fn process_is_absent_when_nothing_is_known() {
    assert!(extract_process_info(None, &[]).is_none());
    let nothing = RawMiscInfo {
        process_id: None,
        process_create_time: None,
        process_integrity_level: None,
        process_execute_flags: None,
        protected_process: None,
    };
    assert!(extract_process_info(Some(&nothing), &[]).is_none());
    let only_time = RawMiscInfo { process_create_time: Some(5), ..nothing };
    let p = extract_process_info(Some(&only_time), &[]).unwrap();
    assert_eq!(p.create_time_unix, Some(5));
    assert_eq!(p.pid, None);
    let only_pid = RawMiscInfo { process_id: Some(0), ..nothing };
    let p = extract_process_info(Some(&only_pid), &[]).unwrap();
    assert_eq!(p.pid, Some(0));
    assert_eq!(p.main_image, None);
}

#[test]
fn process_takes_its_image_from_the_first_module() {
    let modules = vec![
        ModuleInfo {
            name: "C:\\app\\main.exe".to_string(),
            base: 1,
            size: 2,
            checksum: 0,
            time_date_stamp: 0,
            file_version: Some("1.2.3.4".to_string()),
        },
        ModuleInfo {
            name: "other.dll".to_string(),
            base: 3,
            size: 4,
            checksum: 0,
            time_date_stamp: 0,
            file_version: None,
        },
    ];
    let misc = RawMiscInfo {
        process_id: Some(4321),
        process_create_time: Some(1_600_000_000),
        process_integrity_level: Some(0x2000),
        process_execute_flags: Some(0x4D),
        protected_process: Some(0),
    };
    let p = extract_process_info(Some(&misc), &modules).unwrap();
    assert_eq!(p.pid, Some(4321));
    assert_eq!(p.create_time_unix, Some(1_600_000_000));
    assert_eq!(p.integrity_level, Some(0x2000));
    assert_eq!(p.execute_flags, Some(0x4D));
    assert_eq!(p.protected_process, Some(0));
    assert_eq!(p.main_image, Some("C:\\app\\main.exe".to_string()));
    assert_eq!(p.main_image_version, Some("1.2.3.4".to_string()));
    let p = extract_process_info(None, &modules).unwrap();
    assert_eq!(p.pid, None);
    assert_eq!(p.main_image, Some("C:\\app\\main.exe".to_string()));
}

#[test]
fn process_info_as_text() {
    let p = ProcessInfo {
        pid: Some(4321),
        create_time_unix: Some(1_546_300_800),
        integrity_level: Some(8192),
        execute_flags: Some(0x4D),
        protected_process: Some(1),
        main_image: Some("main.exe".to_string()),
        main_image_version: Some("1.2.3.4".to_string()),
    };
    assert_eq!(
        format_process_info(&p),
        "Main image: main.exe\nMain version: 1.2.3.4\nPID: 4321\nCreate time (unix): 1546300800\nCreate time (utc): 2019:01:01 00:00:00 UTC\nIntegrity level: 8192\nExecute flags: 0x0000004D\nProtected process: 1"
    );
    let nothing = ProcessInfo {
        pid: None,
        create_time_unix: None,
        integrity_level: None,
        execute_flags: None,
        protected_process: None,
        main_image: None,
        main_image_version: None,
    };
    assert_eq!(format_process_info(&nothing), "<no process info>");
    let late = ProcessInfo { create_time_unix: Some(u64::MAX / 2), ..nothing };
    assert_eq!(format_process_info(&late), "Create time (unix): 9223372036854775807");
}

#[test]
fn recovered_command_lines_as_text() {
    let arts = vec![
        artifact(ExecArtifactEncoding::Ascii, "cmd.exe", "cmd.exe /c whoami"),
        artifact(ExecArtifactEncoding::Utf16Le, "pwsh", "pwsh -nop"),
        artifact(ExecArtifactEncoding::Ascii, "x.exe", "x.exe y"),
    ];
    assert_eq!(
        format_exec_artifacts(&arts, 12),
        "Recovered: 3\n\n  1. [ascii] cmd.exe\n     cmd.exe /c whoami\n  2. [utf16le] pwsh\n     pwsh -nop\n  3. [ascii] x.exe\n     x.exe y\n"
    );
    assert_eq!(
        format_exec_artifacts(&arts, 2),
        "Recovered: 3\n\n  1. [ascii] cmd.exe\n     cmd.exe /c whoami\n  2. [utf16le] pwsh\n     pwsh -nop\n... (1 more)\n"
    );
    assert_eq!(format_exec_artifacts(&arts, 0), "Recovered: 3\n\n... (3 more)\n");
    assert_eq!(format_exec_artifacts(&[], 5), "Recovered: 0\n\n");
}

#[test]
fn positions_are_aligned_to_three_places() {
    let mut arts = Vec::new();
    for _ in 0..1000 {
        arts.push(artifact(ExecArtifactEncoding::Ascii, "i", "c"));
    }
    let text = format_exec_artifacts(&arts, 1000);
    assert!(text.contains("\n  9. [ascii] i\n"));
    assert!(text.contains("\n 10. [ascii] i\n"));
    assert!(text.contains("\n100. [ascii] i\n"));
    assert!(text.contains("\n1000. [ascii] i\n"));
}

#[test]
fn stack_walk_summary_as_text() {
    let walk = StackwalkReport {
        requesting_thread_id: Some(0x1A2B),
        symbol_paths: vec!["symbols".to_string(), "/opt/sym".to_string()],
        symbolicated_frames: 3,
        modules_with_symbols: 1,
        notes: vec!["first".to_string(), "second".to_string()],
        threads: vec![
            trace(1, vec![frame(0, 1), frame(1, 2)]),
            trace(2, vec![]),
            trace(3, vec![frame(0, 3)]),
        ],
    };
    assert_eq!(walk.total_frames(), 3);
    assert_eq!(
        format_stackwalk_summary(&walk),
        "threads_walked=3\ntotal_frames=3\nsymbolicated_frames=3\nmodules_with_symbols=1\nrequesting_thread=0x1A2B\nsymbol_paths=symbols; /opt/sym\n\nNotes:\n- first\n- second"
    );
    let bare = StackwalkReport::default();
    assert_eq!(bare.total_frames(), 0);
    assert_eq!(
        format_stackwalk_summary(&bare),
        "threads_walked=0\ntotal_frames=0\nsymbolicated_frames=0\nmodules_with_symbols=0"
    );
}

#[test]
fn exception_stack_as_text() {
    let mut named = frame(0, 0x7FF6_0000_1234);
    named.module = Some("C:\\app\\main.exe".to_string());
    named.module_offset = Some(0x1234);
    named.function = Some("main".to_string());
    named.function_offset = Some(0x34);
    let mut in_module = frame(1, 0x7FF6_0000_2000);
    in_module.module = Some("ntdll.dll".to_string());
    in_module.module_offset = Some(0x2000);
    let bare = frame(12, 0xABC);
    let mut stack = trace(0x2C, vec![named, in_module, bare]);
    stack.thread_name = Some("main".to_string());
    assert_eq!(
        format_exception_stack_preview(&stack, 10),
        "thread_id=0x2C name=main\nframes=3\n\n#00 0x00007FF600001234 C:\\app\\main.exe!main+0x34\n#01 0x00007FF600002000 ntdll.dll!<unknown>+0x2000\n#12 0x0000000000000ABC <no-module>!<unknown>\n"
    );
    stack.thread_name = None;
    assert_eq!(
        format_exception_stack_preview(&stack, 1),
        "thread_id=0x2C name=-\nframes=3\n\n#00 0x00007FF600001234 C:\\app\\main.exe!main+0x34\n... (2 more)\n"
    );
}

#[test]
fn summary_as_text() {
    let summary = MinidumpSummary {
        file_size: Some(123_456),
        time_date_stamp: Some(1_546_300_800),
        os: Some("Windows".to_string()),
        cpu: Some("X86_64".to_string()),
        module_count: Some(42),
        thread_count: Some(7),
        exception: Some("thread_id=1 code=0xC0000005 addr=0x0000000000000000".to_string()),
    };
    assert_eq!(
        summary.pretty(),
        "File size: 123456 bytes\nTimeDateStamp (unix): 1546300800\nTimeDateStamp (utc): 2019:01:01 00:00:00 UTC\nOS: Windows\nCPU: X86_64\nThreads: 7\nModules: 42\nException: thread_id=1 code=0xC0000005 addr=0x0000000000000000"
    );
    assert_eq!(MinidumpSummary::default().pretty(), "<no summary>");
    let only_threads = MinidumpSummary { thread_count: Some(0), ..MinidumpSummary::default() };
    assert_eq!(only_threads.pretty(), "Threads: 0");
}

#[test]
fn latest_thread_creation_time() {
    let mut report = MinidumpReport::default();
    assert_eq!(report.last_thread_create_time_unix(), None);
    let thread = |id: u32, t: Option<u64>| ThreadInfo {
        thread_id: id,
        name: None,
        create_time_filetime: None,
        create_time_unix: t,
        start_address: None,
        suspend_count: 0,
        priority_class: 0,
        priority: 0,
        teb: 0,
        stack_start: 0,
        stack_size: 0,
    };
    report.threads = vec![thread(1, None), thread(2, None)];
    assert_eq!(report.last_thread_create_time_unix(), None);
    report.threads = vec![thread(1, Some(5)), thread(2, None), thread(3, Some(9)), thread(4, Some(0))];
    assert_eq!(report.last_thread_create_time_unix(), Some(9));
    report.threads = vec![thread(1, Some(0))];
    assert_eq!(report.last_thread_create_time_unix(), Some(0));
}

#[test]
fn stack_of_a_thread_is_found_by_its_id() {
    let mut report = MinidumpReport::default();
    assert!(report.stackwalk_thread(1).is_none());
    assert!(report.exception_stack().is_none());
    let walk = StackwalkReport {
        threads: vec![
            trace(5, vec![frame(0, 1)]),
            trace(6, vec![frame(0, 2), frame(1, 3)]),
            trace(5, vec![]),
        ],
        ..StackwalkReport::default()
    };
    report.stackwalk = Some(walk);
    assert_eq!(report.stackwalk_thread(5).unwrap().frames.len(), 1);
    assert_eq!(report.stackwalk_thread(6).unwrap().frames.len(), 2);
    assert!(report.stackwalk_thread(7).is_none());
    assert!(report.exception_stack().is_none());
    report.exception = Some(ExceptionInfo {
        thread_id: 6,
        code: 1,
        flags: 0,
        address: 0,
        number_parameters: 0,
    });
    assert_eq!(report.exception_stack().unwrap().thread_id, 6);
    report.exception = Some(ExceptionInfo {
        thread_id: 9,
        code: 1,
        flags: 0,
        address: 0,
        number_parameters: 0,
    });
    assert!(report.exception_stack().is_none());
}

#[test]
fn store_numbers_events_without_identity() {
    let mut store = EventStore::default();
    assert_eq!(store.len(), 0);
    assert_eq!(store.first_id(), None);
    assert_eq!(store.push(event(0, "a")), EventId(1));
    assert_eq!(store.push(event(0, "b")), EventId(2));
    assert_eq!(store.push(event(10, "c")), EventId(10));
    assert_eq!(store.push(event(0, "d")), EventId(11));
    assert_eq!(store.push(event(3, "e")), EventId(3));
    assert_eq!(store.push(event(0, "f")), EventId(12));
    assert_eq!(store.len(), 6);
    assert_eq!(store.first_id(), Some(EventId(1)));
    assert_eq!(store.get(EventId(10)).unwrap().title, "c");
    assert_eq!(store.get(EventId(11)).unwrap().title, "d");
    assert!(store.get(EventId(4)).is_none());
    let titles: Vec<&str> = store.iter().iter().map(|e| e.title.as_str()).collect();
    assert_eq!(titles, vec!["a", "b", "c", "d", "e", "f"]);
}

#[test]
fn fresh_identity_exceeds_every_stored_one() {
    let mut store = EventStore::default();
    for given in [5u64, 0, 2, 40, 0, 7, 0] {
        let id = store.push(event(given, "e"));
        if given == 0 {
            assert!(id.0 >= 1);
            let stored = store.iter();
            assert!(stored[..stored.len() - 1].iter().all(|e| e.id.0 < id.0));
        } else {
            assert_eq!(id, EventId(given));
        }
        assert_eq!(store.iter().last().unwrap().id, id);
    }
    let ids: Vec<u64> = store.iter().iter().map(|e| e.id.0).collect();
    assert_eq!(ids, vec![5, 6, 2, 40, 41, 7, 42]);
}

#[test]
fn store_from_events() {
    let store = EventStore::from_events(vec![event(0, "a"), event(7, "b"), event(0, "c")]);
    let ids: Vec<u64> = store.iter().iter().map(|e| e.id.0).collect();
    assert_eq!(ids, vec![1, 7, 8]);
    assert_eq!(EventStore::from_events(Vec::new()).len(), 0);
}

#[test]
fn sample_narrative() {
    let store = EventStore::demo();
    assert_eq!(store.len(), 3);
    let e = store.get(EventId(2)).unwrap();
    assert_eq!(e.t_ms, 120);
    assert_eq!(e.severity, Severity::Warning);
    assert_eq!(e.title, "Suspicious module load");
    assert_eq!(e.source, "detector::modules");
    let e = store.get(EventId(3)).unwrap();
    assert_eq!(e.t_ms, 260);
    assert_eq!(e.severity, Severity::High);
    assert_eq!(store.iter()[0].title, "Session start");
    assert_eq!(store.iter()[0].source, "runtime");
}

#[test]
fn narrative_of_an_empty_dump() {
    let made = ingest("C:\\dumps\\a.dmp", no_streams(), None, Err("walk failed".to_string()));
    let events = made.events.iter();
    assert_eq!(events.len(), 3);
    assert_eq!(events[0].id, EventId(1));
    assert_eq!(events[0].t_ms, 0);
    assert_eq!(events[0].severity, Severity::Info);
    assert_eq!(events[0].title, "Minidump loaded");
    assert_eq!(events[0].details, "Path: C:\\dumps\\a.dmp\nSize: 0 bytes");
    assert_eq!(events[0].source, "ingest::minidump");
    assert_eq!(events[1].id, EventId(2));
    assert_eq!(events[1].t_ms, 10);
    assert_eq!(events[1].title, "Minidump summary");
    assert_eq!(events[1].details, "File size: 0 bytes\nTimeDateStamp (unix): 0\nTimeDateStamp (utc): 1970:01:01 00:00:00 UTC");
    assert_eq!(events[2].id, EventId(3));
    assert_eq!(events[2].t_ms, 20);
    assert_eq!(events[2].severity, Severity::Warning);
    assert_eq!(events[2].title, "Stackwalk failed");
    assert_eq!(events[2].details, "walk failed");
    assert_eq!(events[2].source, "ingest::stackwalk");
    assert!(made.report.process.is_none());
    assert!(made.report.stackwalk.is_none());
    assert_eq!(made.report.stackwalk_error, Some("walk failed".to_string()));
    assert_eq!(made.report.memory_region_count, None);
    assert_eq!(made.report.memory_region_64_count, None);
    assert_eq!(made.report.memory_info_region_count, None);
    assert_eq!(made.summary.file_size, Some(0));
    assert_eq!(made.summary.thread_count, None);
}

#[test]
fn narrative_of_a_full_dump() {
    let mut named = frame(0, 0x1_4000_0010);
    named.function = Some("main".to_string());
    let walk = StackwalkReport {
        threads: vec![trace(77, vec![named])],
        ..StackwalkReport::default()
    };
    let streams = DumpStreams {
        file_size: 2048,
        time_date_stamp: 1_546_300_800,
        os: Some("Windows".to_string()),
        cpu: Some("X86_64".to_string()),
        threads: Some(vec![raw_thread(77, Some(RawThreadInfo {
            create_time: 132_223_104_000_000_000,
            start_address: 0x9_0000,
        }))]),
        modules: Some(vec![RawModule {
            name: "C:\\Temp\\app.exe".to_string(),
            base_of_image: 0x1_4000_0000,
            size_of_image: 0x1000,
            checksum: 0,
            time_date_stamp: 0,
            file_version_hi: 0x0001_0000,
            file_version_lo: 0,
        }]),
        misc: Some(RawMiscInfo {
            process_id: Some(99),
            process_create_time: None,
            process_integrity_level: None,
            process_execute_flags: None,
            protected_process: None,
        }),
        memory: Some(vec![MemoryRegion { base_address: 0, bytes: b"python x.py y z w\0".to_vec() }]),
        memory64: Some(vec![
            MemoryRegion { base_address: 0x5_0000, bytes: b"\0cmd.exe /c whoami\0".to_vec() },
            MemoryRegion { base_address: 0x6_0000, bytes: Vec::new() },
        ]),
        exception: Some(ExceptionInfo {
            thread_id: 77,
            code: 0xC000_0005,
            flags: 0,
            address: 0xDEAD,
            number_parameters: 2,
        }),
    };
    let made = ingest("a.dmp", streams, None, Ok(walk));
    assert_eq!(made.summary.thread_count, Some(1));
    assert_eq!(made.summary.module_count, Some(1));
    assert_eq!(made.summary.os, Some("Windows".to_string()));
    assert_eq!(
        made.summary.exception,
        Some("thread_id=77 code=0xC0000005 addr=0x000000000000DEAD".to_string())
    );
    assert_eq!(made.report.memory_region_count, Some(1));
    assert_eq!(made.report.memory_region_64_count, Some(2));
    assert_eq!(made.report.exec_artifacts.len(), 1);
    assert_eq!(made.report.exec_artifacts[0].command_line, "cmd.exe /c whoami");
    assert_eq!(made.report.injected_regions.len(), 1);
    assert_eq!(made.report.injected_regions[0].base, 0x9_0000);
    assert_eq!(made.report.threads[0].create_time_unix, Some(1_577_836_800));
    assert_eq!(made.report.process.as_ref().unwrap().pid, Some(99));
    let events = made.events.iter();
    let shape: Vec<(u64, u64, &str, Severity, &str)> = events
        .iter()
        .map(|e| (e.id.0, e.t_ms, e.title.as_str(), e.severity, e.source.as_str()))
        .collect();
    assert_eq!(
        shape,
        vec![
            (1, 0, "Minidump loaded", Severity::Info, "ingest::minidump"),
            (2, 10, "Minidump summary", Severity::Info, "ingest::minidump"),
            (3, 20, "Process info", Severity::Info, "ingest::minidump"),
            (4, 30, "Execution artifacts recovered", Severity::Warning, "ingest::minidump"),
            (5, 40, "Exception stream present", Severity::High, "ingest::minidump"),
            (6, 50, "Stackwalk completed", Severity::Info, "ingest::stackwalk"),
            (7, 55, "Exception thread call stack", Severity::Info, "ingest::stackwalk"),
            (8, 60, "Detection: Access violation", Severity::High, "detector::basic"),
            (9, 65, "Detection: Module loaded from temp path", Severity::Warning, "detector::basic"),
            (10, 70, "Detection: Suspicious execution artifact", Severity::Warning, "detector::basic"),
            (
                11,
                75,
                "Detection: Suspicious executable memory allocation",
                Severity::High,
                "detector::basic",
            ),
        ]
    );
    assert_eq!(events[2].details, "Main image: C:\\Temp\\app.exe\nMain version: 1.0.0.0\nPID: 99");
    assert_eq!(events[3].details, "Recovered: 1\n\n  1. [ascii] cmd.exe\n     cmd.exe /c whoami\n");
    assert_eq!(events[4].details, "thread_id=77\ncode=0xC0000005\naddress=0x000000000000DEAD");
    assert_eq!(
        events[6].details,
        "thread_id=0x4D name=-\nframes=1\n\n#00 0x0000000140000010 <no-module>!main\n"
    );
    assert_eq!(
        events[7].details,
        "Exception code 0xC0000005 at address 0x000000000000DEAD (thread_id=77)."
    );
    assert_eq!(events[8].details, "Module: C:\\Temp\\app.exe");
}

#[test]
fn narrative_before_numbering() {
    let summary = MinidumpSummary::default();
    let report = MinidumpReport::default();
    let events = narrate("p", 5, &summary, &report);
    assert_eq!(events.len(), 2);
    assert_eq!(events[0].id, EventId(0));
    assert_eq!(events[1].id, EventId(0));
    assert_eq!(events[0].details, "Path: p\nSize: 5 bytes");
    assert_eq!(events[1].details, "<no summary>");
    assert_eq!(events[1].t_ms, 10);
}

#[test]
fn a_dump_is_taken_over() {
    let mut app = LogAtlasApp::default();
    assert_eq!(app.events.len(), 3);
    assert_eq!(app.selected, Some(EventId(1)));
    assert_eq!(app.ui.details_tab, DetailsTab::Event);
    app.ui.filter = "keep".to_string();
    app.ui.stack_filter = "drop".to_string();
    app.ui.selected_thread = Some(4);
    app.ui.selected_module = Some(1);
    app.ui.last_error = Some("old".to_string());
    let made: IngestedMinidump = ingest("a.dmp", no_streams(), None, Err("w".to_string()));
    assert!(app.load_minidump(PathBuf::from("a.dmp"), Ok(made)).is_ok());
    assert_eq!(app.dump_path, Some(PathBuf::from("a.dmp")));
    assert!(app.dump_summary.is_some());
    assert!(app.dump_report.is_some());
    assert_eq!(app.events.len(), 3);
    assert_eq!(app.events.iter()[0].title, "Minidump loaded");
    assert_eq!(app.selected, Some(EventId(1)));
    assert_eq!(app.ui.details_tab, DetailsTab::Overview);
    assert_eq!(app.ui.filter, "keep");
    assert_eq!(app.ui.stack_filter, "");
    assert_eq!(app.ui.selected_thread, None);
    assert_eq!(app.ui.selected_module, None);
    assert_eq!(app.ui.last_error, None);
}

#[test]
fn a_failed_load_changes_nothing_but_the_last_error() {
    let mut app = LogAtlasApp::default();
    app.ui.last_error = Some("old".to_string());
    app.ui.selected_thread = Some(4);
    app.ui.details_tab = DetailsTab::Threads;
    let r = app.load_minidump(PathBuf::from("b.dmp"), Err("cannot read".to_string()));
    assert_eq!(r, Err("cannot read".to_string()));
    assert_eq!(app.ui.last_error, None);
    assert_eq!(app.ui.selected_thread, Some(4));
    assert_eq!(app.ui.details_tab, DetailsTab::Threads);
    assert_eq!(app.dump_path, None);
    assert_eq!(app.events.iter()[0].title, "Session start");
}

#[test]
fn fresh_ui_state() {
    let ui = UiState::default();
    assert_eq!(ui.filter, "");
    assert!(!ui.show_about);
    assert_eq!(ui.last_error, None);
    assert_eq!(ui.details_tab, DetailsTab::Event);
    assert_eq!(ui.selected_exec_artifact, None);
    assert_eq!(ui.selected_injected_region, None);
    assert_eq!(ui.selected_stack_thread, None);
    assert_eq!(DetailsTab::default(), DetailsTab::Event);
}

#[test]
fn streams_of_ordinary_size_are_ingested() {
    let walk = StackwalkReport {
        threads: vec![trace(1, vec![frame(0, 1), frame(1, 2)]), trace(2, vec![frame(0, 3)])],
        ..StackwalkReport::default()
    };
    assert_eq!(walk.checked_total_frames(), Some(3));
    assert_eq!(StackwalkReport::default().checked_total_frames(), Some(0));
    let made = try_ingest("a.dmp", no_streams(), None, Ok(walk)).unwrap();
    assert_eq!(made.events.len(), 3);
    assert_eq!(made.events.iter()[2].title, "Stackwalk completed");
    assert_eq!(
        made.events.iter()[2].details,
        "threads_walked=2\ntotal_frames=3\nsymbolicated_frames=0\nmodules_with_symbols=0"
    );
    let made = try_ingest("a.dmp", no_streams(), None, Err("w".to_string())).unwrap();
    assert_eq!(made.events.len(), 3);
}
