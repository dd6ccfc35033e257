//! From the decoded streams of a dump to the report, its summary and the
//! narrative that the viewer shows.

use crate::ingest::minidump_exec::{extract_exec_artifacts, recovered, MemoryRegion};
use crate::ingest::minidump_injection::{
    detect_injected_regions, entries_of, gathered, lists_allocations, memory_info_count,
    memory_info_entries,
};
use crate::model::event::EventView;
use crate::model::minidump_report::{lemma_detections_are_bounded, lemma_trace_of, DetectionView};
use crate::model::store::{ids_of, next_after, stored};
use crate::model::{
    Detection, Event, EventId, EventStore, ExceptionInfo, ExecArtifactEncoding, MinidumpReport,
    MinidumpSummary, ModuleInfo, ProcessExecArtifact, ProcessInfo, Severity, StackFrameInfo,
    StackwalkReport, ThreadInfo, ThreadStackTrace,
};
use crate::text::{
    chars_of, clone_text, dec_chars, dec_of, dec_text, hex_text, join, join_lines_or, join_texts,
    lines_or, optional_line, pad_left, push_chars, push_dec, push_dec_padded, push_hex,
    push_hex_padded, push_line, push_optional_number, push_optional_text, push_str, push_text_or,
    string_of, text, text_or, texts, views, widen, widened,
};
use crate::util::time::{
    filetime_to_unix_seconds, unix_seconds_of, unix_seconds_to_utc_string, utc_string_of,
};
use minidump::MinidumpMemoryInfoList;
use vstd::prelude::*;

verus! {

broadcast use vstd::string::group_string_axioms;

/// One entry of the module list of a dump.
#[derive(Clone, Debug)]
pub struct RawModule {
    pub name: String,
    pub base_of_image: u64,
    pub size_of_image: u32,
    pub checksum: u32,
    pub time_date_stamp: u32,
    /// Upper half of the file version: major and minor number.
    pub file_version_hi: u32,
    /// Lower half of the file version: build and revision number.
    pub file_version_lo: u32,
}

/// What the extended thread information of a dump says of one thread.
#[derive(Clone, Copy, Debug, PartialEq, Eq, Structural)]
pub struct RawThreadInfo {
    /// Creation time in 100 ns ticks since 1601-01-01 UTC.
    pub create_time: u64,
    /// Zero when the start address is not known.
    pub start_address: u64,
}

/// One entry of the thread list of a dump, with what the streams of thread
/// names and of extended thread information hold for it.
#[derive(Clone, Debug)]
pub struct RawThread {
    pub thread_id: u32,
    pub suspend_count: u32,
    pub priority_class: u32,
    pub priority: u32,
    pub teb: u64,
    pub stack_start: u64,
    pub stack_size: u32,
    pub name: Option<String>,
    pub info: Option<RawThreadInfo>,
}

/// The fields of the miscellaneous-information stream that are valid.
#[derive(Clone, Copy, Debug, PartialEq, Eq, Structural)]
pub struct RawMiscInfo {
    pub process_id: Option<u32>,
    pub process_create_time: Option<u32>,
    pub process_integrity_level: Option<u32>,
    pub process_execute_flags: Option<u32>,
    pub protected_process: Option<u32>,
}

/// The file version `major.minor.build.revision`.
pub open spec fn file_version_text(hi: u32, lo: u32) -> Seq<char> {
    dec_text((hi >> 16) as nat) + "."@ + dec_text((hi & 0xFFFF) as nat) + "."@ + dec_text(
        (lo >> 16) as nat,
    ) + "."@ + dec_text((lo & 0xFFFF) as nat)
}

/// The file version of a module, unless both of its halves are zero.
pub open spec fn file_version_of(hi: u32, lo: u32) -> Option<Seq<char>> {
    if hi == 0 && lo == 0 {
        None
    } else {
        Some(file_version_text(hi, lo))
    }
}

/// The file version of a module as `major.minor.build.revision`, unless both
/// halves of it are zero.
pub fn format_file_version(hi: u32, lo: u32) -> (r: Option<String>)
    ensures
        text(r) == file_version_of(hi, lo),
{
    if hi == 0 && lo == 0 {
        return None;
    }
    let mut out: Vec<char> = Vec::new();
    push_dec(&mut out, (hi >> 16) as u64);
    push_str(&mut out, ".");
    push_dec(&mut out, (hi & 0xFFFF) as u64);
    push_str(&mut out, ".");
    push_dec(&mut out, (lo >> 16) as u64);
    push_str(&mut out, ".");
    push_dec(&mut out, (lo & 0xFFFF) as u64);
    assert(out@ =~= file_version_text(hi, lo));
    Some(string_of(out.as_slice()))
}

/// `out` is the module that the entry `raw` describes.
pub open spec fn module_matches(out: ModuleInfo, raw: RawModule) -> bool {
    &&& out.name@ == raw.name@
    &&& out.base == raw.base_of_image
    &&& out.size == raw.size_of_image
    &&& out.checksum == raw.checksum
    &&& out.time_date_stamp == raw.time_date_stamp
    &&& text(out.file_version) == file_version_of(raw.file_version_hi, raw.file_version_lo)
}

/// `out` holds the modules that `list` describes, in its order.
pub open spec fn modules_match(out: Seq<ModuleInfo>, list: Seq<RawModule>) -> bool {
    &&& out.len() == list.len()
    &&& forall|i: int| 0 <= i < out.len() ==> module_matches(#[trigger] out[i], list[i])
}

/// The modules of a dump, in the order of its module list.
pub fn extract_modules(list: Vec<RawModule>) -> (out: Vec<ModuleInfo>)
    ensures
        modules_match(out@, list@),
{
    let ghost all = list@;
    let mut out: Vec<ModuleInfo> = Vec::new();
    for m in it: list
        invariant
            it.seq() == all,
            out@.len() == it.index(),
            forall|k: int| 0 <= k < it.index() ==> module_matches(#[trigger] out@[k], all[k]),
    {
        let file_version = format_file_version(m.file_version_hi, m.file_version_lo);
        out.push(
            ModuleInfo {
                name: m.name,
                base: m.base_of_image,
                size: m.size_of_image as u64,
                checksum: m.checksum,
                time_date_stamp: m.time_date_stamp,
                file_version,
            },
        );
    }
    out
}

/// `out` is the thread that the entry `raw` describes.  Its creation time
/// and its start address come from the extended information, where there is
/// any; a start address of zero counts as unknown.
pub open spec fn thread_matches(out: ThreadInfo, raw: RawThread) -> bool {
    &&& out.thread_id == raw.thread_id
    &&& text(out.name) == text(raw.name)
    &&& out.create_time_filetime == match raw.info {
        Some(info) => Some(info.create_time),
        None => None,
    }
    &&& out.create_time_unix == match raw.info {
        Some(info) => unix_seconds_of(info.create_time),
        None => None,
    }
    &&& out.start_address == match raw.info {
        Some(info) => if info.start_address != 0 {
            Some(info.start_address)
        } else {
            None
        },
        None => None,
    }
    &&& out.suspend_count == raw.suspend_count
    &&& out.priority_class == raw.priority_class
    &&& out.priority == raw.priority
    &&& out.teb == raw.teb
    &&& out.stack_start == raw.stack_start
    &&& out.stack_size == raw.stack_size
}

/// `out` holds the threads that `list` describes, in its order.
pub open spec fn threads_match(out: Seq<ThreadInfo>, list: Seq<RawThread>) -> bool {
    &&& out.len() == list.len()
    &&& forall|i: int| 0 <= i < out.len() ==> thread_matches(#[trigger] out[i], list[i])
}

/// The threads of a dump, in the order of its thread list.
pub fn extract_threads(list: Vec<RawThread>) -> (out: Vec<ThreadInfo>)
    ensures
        threads_match(out@, list@),
{
    let ghost all = list@;
    let mut out: Vec<ThreadInfo> = Vec::new();
    for t in it: list
        invariant
            it.seq() == all,
            out@.len() == it.index(),
            forall|k: int| 0 <= k < it.index() ==> thread_matches(#[trigger] out@[k], all[k]),
    {
        let (create_time_filetime, create_time_unix, start_address) = match t.info {
            Some(info) => (
                Some(info.create_time),
                filetime_to_unix_seconds(info.create_time),
                if info.start_address != 0 {
                    Some(info.start_address)
                } else {
                    None
                },
            ),
            None => (None, None, None),
        };
        out.push(
            ThreadInfo {
                thread_id: t.thread_id,
                name: t.name,
                create_time_filetime,
                create_time_unix,
                start_address,
                suspend_count: t.suspend_count,
                priority_class: t.priority_class,
                priority: t.priority,
                teb: t.teb,
                stack_start: t.stack_start,
                stack_size: t.stack_size as u64,
            },
        );
    }
    out
}

/// The name of the first module, if there is a module.
pub open spec fn main_image_of(modules: Seq<ModuleInfo>) -> Option<Seq<char>> {
    if modules.len() > 0 {
        Some(modules[0].name@)
    } else {
        None
    }
}

/// The file version of the first module, if it has one.
pub open spec fn main_version_of(modules: Seq<ModuleInfo>) -> Option<Seq<char>> {
    if modules.len() > 0 {
        text(modules[0].file_version)
    } else {
        None
    }
}

/// Something is known of the process: there is a module to take its image
/// from, or the miscellaneous information holds one of its fields.
pub open spec fn process_known(misc: Option<RawMiscInfo>, modules: Seq<ModuleInfo>) -> bool {
    ||| modules.len() > 0
    ||| misc matches Some(m) && (m.process_id is Some || m.process_create_time is Some
        || m.process_integrity_level is Some || m.process_execute_flags is Some
        || m.protected_process is Some)
}

/// `out` holds what the miscellaneous information and the first module say
/// of the process.
pub open spec fn process_matches(
    out: ProcessInfo,
    misc: Option<RawMiscInfo>,
    modules: Seq<ModuleInfo>,
) -> bool {
    &&& text(out.main_image) == main_image_of(modules)
    &&& text(out.main_image_version) == main_version_of(modules)
    &&& match misc {
        Some(m) => {
            &&& out.pid == m.process_id
            &&& out.create_time_unix == match m.process_create_time {
                Some(t) => Some(t as u64),
                None => None,
            }
            &&& out.integrity_level == m.process_integrity_level
            &&& out.execute_flags == m.process_execute_flags
            &&& out.protected_process == m.protected_process
        },
        None => {
            &&& out.pid is None
            &&& out.create_time_unix is None
            &&& out.integrity_level is None
            &&& out.execute_flags is None
            &&& out.protected_process is None
        },
    }
}

/// What is known of the process of a dump; nothing at all, rather than a
/// record of unknowns, when neither the miscellaneous information nor the
/// module list tells anything.
pub fn extract_process_info(misc: Option<&RawMiscInfo>, modules: &[ModuleInfo]) -> (r: Option<
    ProcessInfo,
>)
    ensures
        r is Some <==> process_known(
            match misc {
                Some(m) => Some(*m),
                None => None,
            },
            modules@,
        ),
        r matches Some(p) ==> process_matches(
            p,
            match misc {
                Some(m) => Some(*m),
                None => None,
            },
            modules@,
        ),
{
    let mut info = ProcessInfo {
        pid: None,
        create_time_unix: None,
        integrity_level: None,
        execute_flags: None,
        protected_process: None,
        main_image: None,
        main_image_version: None,
    };
    if modules.len() > 0 {
        info.main_image = Some(modules[0].name.clone());
        info.main_image_version = match &modules[0].file_version {
            Some(v) => Some(v.clone()),
            None => None,
        };
    }
    if let Some(m) = misc {
        info.pid = m.process_id;
        info.create_time_unix = match m.process_create_time {
            Some(t) => Some(t as u64),
            None => None,
        };
        info.integrity_level = m.process_integrity_level;
        info.execute_flags = m.process_execute_flags;
        info.protected_process = m.protected_process;
    }
    if info.pid.is_none() && info.create_time_unix.is_none() && info.main_image.is_none()
        && info.integrity_level.is_none() && info.execute_flags.is_none()
        && info.protected_process.is_none() {
        return None;
    }
    Some(info)
}

/// The creation time of the process, and on a line of its own the same
/// moment in calendar time where the calendar reaches it.
pub open spec fn create_time_lines(create_time_unix: Option<u64>) -> Seq<Seq<char>> {
    match create_time_unix {
        Some(t) => seq!["Create time (unix): "@ + dec_text(t as nat)] + optional_line(
            "Create time (utc): "@,
            utc_string_of(t),
        ),
        None => Seq::empty(),
    }
}

/// The execute flags in hexadecimal, eight digits.
pub open spec fn execute_flags_text(flags: Option<u32>) -> Option<Seq<char>> {
    match flags {
        Some(f) => Some(pad_left(hex_text(f as nat), 8, '0')),
        None => None,
    }
}

/// The lines that tell what is known of the process.
pub open spec fn process_info_lines(p: ProcessInfo) -> Seq<Seq<char>> {
    optional_line("Main image: "@, text(p.main_image)) + optional_line(
        "Main version: "@,
        text(p.main_image_version),
    ) + optional_line("PID: "@, dec_of(widened(p.pid))) + create_time_lines(p.create_time_unix)
        + optional_line("Integrity level: "@, dec_of(widened(p.integrity_level))) + optional_line(
        "Execute flags: 0x"@,
        execute_flags_text(p.execute_flags),
    ) + optional_line("Protected process: "@, dec_of(widened(p.protected_process)))
}

/// What is known of the process, one fact on each line.
pub open spec fn process_info_text(p: ProcessInfo) -> Seq<char> {
    lines_or(process_info_lines(p), "<no process info>"@)
}

/// What is known of the process, one fact on each line.
pub fn format_process_info(p: &ProcessInfo) -> (r: String)
    ensures
        r@ == process_info_text(*p),
{
    let mut lines: Vec<Vec<char>> = Vec::new();
    assert(views(lines@) =~= Seq::<Seq<char>>::empty());
    push_optional_text(&mut lines, "Main image: ", &p.main_image);
    push_optional_text(&mut lines, "Main version: ", &p.main_image_version);
    push_optional_number(&mut lines, "PID: ", widen(p.pid));
    let ghost head = views(lines@);
    if let Some(t) = p.create_time_unix {
        let value = dec_chars(t);
        push_line(&mut lines, "Create time (unix): ", value.as_slice());
        if let Some(utc) = unix_seconds_to_utc_string(t) {
            let value = chars_of(utc.as_str());
            push_line(&mut lines, "Create time (utc): ", value.as_slice());
        }
    }
    assert(views(lines@) =~= head + create_time_lines(p.create_time_unix));
    push_optional_number(&mut lines, "Integrity level: ", widen(p.integrity_level));
    let ghost middle = views(lines@);
    if let Some(f) = p.execute_flags {
        let mut value: Vec<char> = Vec::new();
        push_hex_padded(&mut value, f as u64, 8, '0');
        assert(value@ =~= pad_left(hex_text(f as nat), 8, '0'));
        push_line(&mut lines, "Execute flags: 0x", value.as_slice());
    }
    assert(views(lines@) =~= middle + optional_line(
        "Execute flags: 0x"@,
        execute_flags_text(p.execute_flags),
    ));
    push_optional_number(&mut lines, "Protected process: ", widen(p.protected_process));
    assert(views(lines@) =~= process_info_lines(*p));
    join_lines_or(&lines, "<no process info>")
}

/// Name of an encoding in a list of command lines.
pub open spec fn encoding_name(encoding: ExecArtifactEncoding) -> Seq<char> {
    match encoding {
        ExecArtifactEncoding::Ascii => "ascii"@,
        ExecArtifactEncoding::Utf16Le => "utf16le"@,
    }
}

/// The entry of a recovered command line in a list: its position, counted
/// from one, its encoding and its image, and on a line of its own the
/// command line.
pub open spec fn artifact_entry(a: ProcessExecArtifact, position: nat) -> Seq<char> {
    pad_left(dec_text(position), 3, ' ') + ". ["@ + encoding_name(a.encoding) + "] "@ + a.image@
        + "\n     "@ + a.command_line@ + "\n"@
}

/// The entries of the first `n` command lines.
pub open spec fn artifact_entries(arts: Seq<ProcessExecArtifact>, n: int) -> Seq<char>
    decreases n,
{
    if n <= 0 {
        Seq::empty()
    } else {
        artifact_entries(arts, n - 1) + artifact_entry(arts[n - 1], n as nat)
    }
}

/// How many command lines were recovered, the first `limit` of them, and how
/// many more there are.
pub open spec fn exec_artifacts_text(arts: Seq<ProcessExecArtifact>, limit: nat) -> Seq<char> {
    "Recovered: "@ + dec_text(arts.len()) + "\n\n"@ + artifact_entries(
        arts,
        if arts.len() > limit {
            limit as int
        } else {
            arts.len() as int
        },
    ) + if arts.len() > limit {
        "... ("@ + dec_text((arts.len() - limit) as nat) + " more)\n"@
    } else {
        Seq::empty()
    }
}

/// The list of the recovered command lines, of which no more than `limit`
/// are shown.
pub fn format_exec_artifacts(arts: &[ProcessExecArtifact], limit: usize) -> (r: String)
    ensures
        r@ == exec_artifacts_text(arts@, limit as nat),
{
    let mut out: Vec<char> = Vec::new();
    push_str(&mut out, "Recovered: ");
    push_dec(&mut out, arts.len() as u64);
    push_str(&mut out, "\n\n");
    let ghost head = out@;
    let shown = if arts.len() > limit {
        limit
    } else {
        arts.len()
    };
    let mut i: usize = 0;
    while i < shown
        invariant
            i <= shown <= arts.len(),
            out@ == head + artifact_entries(arts@, i as int),
        decreases shown - i,
    {
        let a = &arts[i];
        let ghost before = out@;
        push_dec_padded(&mut out, (i + 1) as u64, 3, ' ');
        push_str(&mut out, ". [");
        match a.encoding {
            ExecArtifactEncoding::Ascii => push_str(&mut out, "ascii"),
            ExecArtifactEncoding::Utf16Le => push_str(&mut out, "utf16le"),
        }
        push_str(&mut out, "] ");
        push_str(&mut out, a.image.as_str());
        push_str(&mut out, "\n     ");
        push_str(&mut out, a.command_line.as_str());
        push_str(&mut out, "\n");
        assert(out@ =~= before + artifact_entry(*a, (i + 1) as nat));
        i += 1;
        assert(out@ =~= head + artifact_entries(arts@, i as int));
    }
    if arts.len() > limit {
        push_str(&mut out, "... (");
        push_dec(&mut out, (arts.len() - limit) as u64);
        push_str(&mut out, " more)\n");
    }
    assert(out@ =~= exec_artifacts_text(arts@, limit as nat));
    string_of(out.as_slice())
}

/// Each note as an item of a list, after an empty line and a heading; nothing
/// when there is no note.
pub open spec fn note_lines(notes: Seq<Seq<char>>) -> Seq<Seq<char>> {
    if notes.len() == 0 {
        Seq::empty()
    } else {
        seq![Seq::<char>::empty(), "Notes:"@] + Seq::new(notes.len(), |i: int| "- "@ + notes[i])
    }
}

/// The directories that were searched for symbols, on one line.
pub open spec fn symbol_path_lines(paths: Seq<Seq<char>>) -> Seq<Seq<char>> {
    if paths.len() == 0 {
        Seq::empty()
    } else {
        seq!["symbol_paths="@ + join(paths, "; "@)]
    }
}

/// The thread that asked for the dump, in hexadecimal.
pub open spec fn requesting_thread_text(tid: Option<u32>) -> Option<Seq<char>> {
    match tid {
        Some(t) => Some(hex_text(t as nat)),
        None => None,
    }
}

/// The lines that sum up a stack walk.
pub open spec fn stackwalk_summary_lines(sw: StackwalkReport) -> Seq<Seq<char>> {
    seq![
        "threads_walked="@ + dec_text(sw.threads@.len()),
        "total_frames="@ + dec_text(sw.frame_count()),
        "symbolicated_frames="@ + dec_text(sw.symbolicated_frames as nat),
        "modules_with_symbols="@ + dec_text(sw.modules_with_symbols as nat),
    ] + optional_line("requesting_thread=0x"@, requesting_thread_text(sw.requesting_thread_id))
        + symbol_path_lines(texts(sw.symbol_paths@)) + note_lines(texts(sw.notes@))
}

/// The summary of a stack walk, one fact on each line.
pub open spec fn stackwalk_summary_text(sw: StackwalkReport) -> Seq<char> {
    join(stackwalk_summary_lines(sw), "\n"@)
}

fn texts_of(list: &Vec<String>) -> (r: Vec<Vec<char>>)
    ensures
        views(r@) == texts(list@),
{
    let mut r: Vec<Vec<char>> = Vec::new();
    let mut i: usize = 0;
    while i < list.len()
        invariant
            i <= list.len(),
            r@.len() == i,
            forall|k: int| 0 <= k < i ==> (#[trigger] r@[k])@ == list@[k]@,
        decreases list.len() - i,
    {
        r.push(chars_of(list[i].as_str()));
        i += 1;
    }
    assert(views(r@) =~= texts(list@));
    r
}

/// The summary of a stack walk: how many threads and frames were walked, how
/// many frames and modules have symbols, and what is noted about the walk.
pub fn format_stackwalk_summary(sw: &StackwalkReport) -> (r: String)
    requires
        sw.frame_count() <= usize::MAX,
    ensures
        r@ == stackwalk_summary_text(*sw),
{
    let mut lines: Vec<Vec<char>> = Vec::new();
    assert(views(lines@) =~= Seq::<Seq<char>>::empty());
    let value = dec_chars(sw.threads.len() as u64);
    push_line(&mut lines, "threads_walked=", value.as_slice());
    let value = dec_chars(sw.total_frames() as u64);
    push_line(&mut lines, "total_frames=", value.as_slice());
    let value = dec_chars(sw.symbolicated_frames as u64);
    push_line(&mut lines, "symbolicated_frames=", value.as_slice());
    let value = dec_chars(sw.modules_with_symbols as u64);
    push_line(&mut lines, "modules_with_symbols=", value.as_slice());
    let ghost first = views(lines@);
    assert(first =~= seq![
        "threads_walked="@ + dec_text(sw.threads@.len()),
        "total_frames="@ + dec_text(sw.frame_count()),
        "symbolicated_frames="@ + dec_text(sw.symbolicated_frames as nat),
        "modules_with_symbols="@ + dec_text(sw.modules_with_symbols as nat),
    ]);
    if let Some(tid) = sw.requesting_thread_id {
        let mut value: Vec<char> = Vec::new();
        push_hex(&mut value, tid as u64);
        assert(value@ =~= hex_text(tid as nat));
        push_line(&mut lines, "requesting_thread=0x", value.as_slice());
    }
    let ghost second = views(lines@);
    assert(second =~= first + optional_line(
        "requesting_thread=0x"@,
        requesting_thread_text(sw.requesting_thread_id),
    ));
    if sw.symbol_paths.len() > 0 {
        let paths = texts_of(&sw.symbol_paths);
        let joined = join_texts(&paths, "; ");
        push_line(&mut lines, "symbol_paths=", joined.as_slice());
    }
    let ghost third = views(lines@);
    assert(third =~= second + symbol_path_lines(texts(sw.symbol_paths@)));
    if sw.notes.len() > 0 {
        lines.push(Vec::new());
        lines.push(chars_of("Notes:"));
        let ghost start = views(lines@);
        assert(start =~= third + seq![Seq::<char>::empty(), "Notes:"@]);
        let mut i: usize = 0;
        while i < sw.notes.len()
            invariant
                i <= sw.notes.len(),
                views(lines@) == start + Seq::new(i as nat, |k: int| "- "@ + texts(sw.notes@)[k]),
            decreases sw.notes.len() - i,
        {
            let value = chars_of(sw.notes[i].as_str());
            push_line(&mut lines, "- ", value.as_slice());
            i += 1;
            assert(views(lines@) =~= start + Seq::new(
                i as nat,
                |k: int| "- "@ + texts(sw.notes@)[k],
            ));
        }
        assert(views(lines@) =~= third + note_lines(texts(sw.notes@)));
    }
    assert(views(lines@) =~= stackwalk_summary_lines(*sw));
    let text = join_texts(&lines, "\n");
    string_of(text.as_slice())
}

/// By how much the instruction lies above its function or, where that is not
/// known, its module.
pub open spec fn frame_offset_text(frame: StackFrameInfo) -> Seq<char> {
    match frame.function_offset {
        Some(off) => "+0x"@ + hex_text(off as nat),
        None => match frame.module_offset {
            Some(off) => "+0x"@ + hex_text(off as nat),
            None => Seq::empty(),
        },
    }
}

/// One frame of a call stack on a line: position, instruction, module and
/// function, and the offset.
pub open spec fn frame_line(frame: StackFrameInfo) -> Seq<char> {
    "#"@ + pad_left(dec_text(frame.index as nat), 2, '0') + " 0x"@ + pad_left(
        hex_text(frame.instruction as nat),
        16,
        '0',
    ) + " "@ + text_or(frame.module, "<no-module>"@) + "!"@ + text_or(
        frame.function,
        "<unknown>"@,
    ) + frame_offset_text(frame) + "\n"@
}

/// The lines of the first `n` frames.
pub open spec fn frame_lines(frames: Seq<StackFrameInfo>, n: int) -> Seq<char>
    decreases n,
{
    if n <= 0 {
        Seq::empty()
    } else {
        frame_lines(frames, n - 1) + frame_line(frames[n - 1])
    }
}

/// The thread, the number of its frames, the first `limit` of them, and how
/// many more there are.
pub open spec fn stack_preview_text(stack: ThreadStackTrace, limit: nat) -> Seq<char> {
    "thread_id=0x"@ + hex_text(stack.thread_id as nat) + " name="@ + text_or(
        stack.thread_name,
        "-"@,
    ) + "\nframes="@ + dec_text(stack.frames@.len()) + "\n\n"@ + frame_lines(
        stack.frames@,
        if stack.frames@.len() > limit {
            limit as int
        } else {
            stack.frames@.len() as int
        },
    ) + if stack.frames@.len() > limit {
        "... ("@ + dec_text((stack.frames@.len() - limit) as nat) + " more)\n"@
    } else {
        Seq::empty()
    }
}

/// The first part of [`frame_line`], up to the module.
pub open spec fn frame_line_head(frame: StackFrameInfo) -> Seq<char> {
    "#"@ + pad_left(dec_text(frame.index as nat), 2, '0') + " 0x"@ + pad_left(
        hex_text(frame.instruction as nat),
        16,
        '0',
    ) + " "@
}

fn frame_line_of(frame: &StackFrameInfo) -> (line: Vec<char>)
    ensures
        line@ == frame_line(*frame),
{
    let mut out: Vec<char> = Vec::new();
    push_str(&mut out, "#");
    push_dec_padded(&mut out, frame.index as u64, 2, '0');
    push_str(&mut out, " 0x");
    push_hex_padded(&mut out, frame.instruction, 16, '0');
    push_str(&mut out, " ");
    assert(out@ =~= frame_line_head(*frame));
    let ghost first = out@;
    push_text_or(&mut out, &frame.module, "<no-module>");
    push_str(&mut out, "!");
    push_text_or(&mut out, &frame.function, "<unknown>");
    let ghost middle = out@;
    assert(middle =~= first + text_or(frame.module, "<no-module>"@) + "!"@ + text_or(
        frame.function,
        "<unknown>"@,
    ));
    if let Some(off) = frame.function_offset {
        push_str(&mut out, "+0x");
        push_hex(&mut out, off);
    } else if let Some(off) = frame.module_offset {
        push_str(&mut out, "+0x");
        push_hex(&mut out, off);
    }
    assert(out@ =~= middle + frame_offset_text(*frame));
    push_str(&mut out, "\n");
    assert(out@ =~= middle + frame_offset_text(*frame) + "\n"@);
    assert(out@ =~= frame_line(*frame));
    out
}

/// The call stack of a thread, of which no more than `limit` frames are
/// shown.
pub fn format_exception_stack_preview(stack: &ThreadStackTrace, limit: usize) -> (r: String)
    ensures
        r@ == stack_preview_text(*stack, limit as nat),
{
    let mut out: Vec<char> = Vec::new();
    push_str(&mut out, "thread_id=0x");
    push_hex(&mut out, stack.thread_id as u64);
    push_str(&mut out, " name=");
    push_text_or(&mut out, &stack.thread_name, "-");
    push_str(&mut out, "\nframes=");
    push_dec(&mut out, stack.frames.len() as u64);
    push_str(&mut out, "\n\n");
    let ghost head = out@;
    let shown = if stack.frames.len() > limit {
        limit
    } else {
        stack.frames.len()
    };
    let mut i: usize = 0;
    while i < shown
        invariant
            i <= shown <= stack.frames.len(),
            out@ == head + frame_lines(stack.frames@, i as int),
        decreases shown - i,
    {
        let frame = &stack.frames[i];
        let line = frame_line_of(frame);
        push_chars(&mut out, line.as_slice());
        i += 1;
        assert(out@ =~= head + frame_lines(stack.frames@, i as int));
    }
    if stack.frames.len() > limit {
        push_str(&mut out, "... (");
        push_dec(&mut out, (stack.frames.len() - limit) as u64);
        push_str(&mut out, " more)\n");
    }
    assert(out@ =~= stack_preview_text(*stack, limit as nat));
    string_of(out.as_slice())
}

/// An entry of the narrative before it has a place in time: what it says and
/// how long after the entry before it it comes.
#[verifier::ext_equal]
pub struct Draft {
    pub delta: u64,
    pub severity: Severity,
    pub title: Seq<char>,
    pub details: Seq<char>,
    pub source: Seq<char>,
}

/// The first entry: which file was loaded, and how large it is.
pub open spec fn loaded_draft(path: Seq<char>, file_size: u64) -> Draft {
    Draft {
        delta: 0,
        severity: Severity::Info,
        title: "Minidump loaded"@,
        details: "Path: "@ + path + "\nSize: "@ + dec_text(file_size as nat) + " bytes"@,
        source: "ingest::minidump"@,
    }
}

/// The summary of the dump.
pub open spec fn summary_draft(summary: MinidumpSummary) -> Draft {
    Draft {
        delta: 10,
        severity: Severity::Info,
        title: "Minidump summary"@,
        details: summary.pretty_text(),
        source: "ingest::minidump"@,
    }
}

/// What is known of the process, when anything is.
pub open spec fn process_drafts(process: Option<ProcessInfo>) -> Seq<Draft> {
    match process {
        Some(p) => seq![
            Draft {
                delta: 10,
                severity: Severity::Info,
                title: "Process info"@,
                details: process_info_text(p),
                source: "ingest::minidump"@,
            },
        ],
        None => Seq::empty(),
    }
}

/// Number of recovered command lines that the narrative lists.
pub const ARTIFACTS_SHOWN: usize = 12;

/// Number of frames of the exception thread that the narrative lists.
pub const FRAMES_SHOWN: usize = 10;

/// The first recovered command lines, when there are any.
pub open spec fn artifact_drafts(arts: Seq<ProcessExecArtifact>) -> Seq<Draft> {
    if arts.len() > 0 {
        seq![
            Draft {
                delta: 10,
                severity: Severity::Warning,
                title: "Execution artifacts recovered"@,
                details: exec_artifacts_text(arts, ARTIFACTS_SHOWN as nat),
                source: "ingest::minidump"@,
            },
        ]
    } else {
        Seq::empty()
    }
}

/// Thread, code and address of the exception, one on each line.
pub open spec fn exception_event_text(e: ExceptionInfo) -> Seq<char> {
    "thread_id="@ + dec_text(e.thread_id as nat) + "\ncode=0x"@ + pad_left(
        hex_text(e.code as nat),
        8,
        '0',
    ) + "\naddress=0x"@ + pad_left(hex_text(e.address as nat), 16, '0')
}

/// That the dump holds an exception, when it does.
pub open spec fn exception_drafts(exception: Option<ExceptionInfo>) -> Seq<Draft> {
    match exception {
        Some(e) => seq![
            Draft {
                delta: 10,
                severity: Severity::High,
                title: "Exception stream present"@,
                details: exception_event_text(e),
                source: "ingest::minidump"@,
            },
        ],
        None => Seq::empty(),
    }
}

/// With a stack walk: its summary and, when the thread of the exception was
/// walked and has frames, its call stack.  Without: why the walk failed, when
/// that is known.
pub open spec fn stackwalk_drafts(report: MinidumpReport) -> Seq<Draft> {
    match report.stackwalk {
        Some(walk) => seq![
            Draft {
                delta: 10,
                severity: Severity::Info,
                title: "Stackwalk completed"@,
                details: stackwalk_summary_text(walk),
                source: "ingest::stackwalk"@,
            },
        ] + match report.exception_trace() {
            Some(stack) => if stack.frames@.len() > 0 {
                seq![
                    Draft {
                        delta: 5,
                        severity: Severity::Info,
                        title: "Exception thread call stack"@,
                        details: stack_preview_text(stack, FRAMES_SHOWN as nat),
                        source: "ingest::stackwalk"@,
                    },
                ]
            } else {
                Seq::empty()
            },
            None => Seq::empty(),
        },
        None => match report.stackwalk_error {
            Some(err) => seq![
                Draft {
                    delta: 10,
                    severity: Severity::Warning,
                    title: "Stackwalk failed"@,
                    details: err@,
                    source: "ingest::stackwalk"@,
                },
            ],
            None => Seq::empty(),
        },
    }
}

/// The entry for a detection.
pub open spec fn detection_draft(d: DetectionView) -> Draft {
    Draft {
        delta: 5,
        severity: d.severity,
        title: "Detection: "@ + d.title,
        details: d.details,
        source: "detector::basic"@,
    }
}

/// One entry for each detection, in their order.
pub open spec fn detection_drafts(detections: Seq<DetectionView>) -> Seq<Draft> {
    Seq::new(detections.len(), |i: int| detection_draft(detections[i]))
}

/// What the narrative of a dump tells, in order: that the dump was loaded,
/// its summary, the process, the recovered command lines, the exception, the
/// stack walk, and every detection.
pub open spec fn drafts_of(
    path: Seq<char>,
    file_size: u64,
    summary: MinidumpSummary,
    report: MinidumpReport,
) -> Seq<Draft> {
    seq![loaded_draft(path, file_size), summary_draft(summary)] + process_drafts(report.process)
        + artifact_drafts(report.exec_artifacts@) + exception_drafts(report.exception)
        + stackwalk_drafts(report) + detection_drafts(report.detections_view())
}

/// The offset of the last of the drafts: the sum of all the steps.
pub open spec fn offset_after(drafts: Seq<Draft>) -> int
    decreases drafts.len(),
{
    if drafts.len() == 0 {
        0
    } else {
        offset_after(drafts.drop_last()) + drafts.last().delta
    }
}

/// The events that the drafts become: each at its offset, which never
/// decreases, and, when `numbered`, each with its position, counted from one,
/// as its identity.
pub open spec fn narrative(drafts: Seq<Draft>, numbered: bool) -> Seq<EventView>
    decreases drafts.len(),
{
    if drafts.len() == 0 {
        Seq::empty()
    } else {
        narrative(drafts.drop_last(), numbered).push(
            EventView {
                id: EventId(
                    if numbered {
                        drafts.len() as u64
                    } else {
                        0
                    },
                ),
                t_ms: offset_after(drafts) as u64,
                severity: drafts.last().severity,
                title: drafts.last().title,
                details: drafts.last().details,
                source: drafts.last().source,
            },
        )
    }
}

/// The offset of an entry is not below that of any entry before it.
pub proof fn lemma_offsets_grow(drafts: Seq<Draft>, n: int)
    requires
        0 <= n <= drafts.len(),
    ensures
        0 <= offset_after(drafts.take(n)) <= offset_after(drafts),
    decreases drafts.len() - n,
{
    if n < drafts.len() {
        lemma_offsets_grow(drafts.drop_last(), n);
        assert(drafts.drop_last().take(n) =~= drafts.take(n));
    } else {
        assert(drafts.take(n) =~= drafts);
        lemma_offset_not_negative(drafts);
    }
}

/// The event at `i` tells what the draft at `i` says, at the offset of that
/// draft; when numbered, its identity is its position, counted from one.
pub proof fn lemma_narrative_entry(drafts: Seq<Draft>, numbered: bool, i: int)
    requires
        0 <= i < drafts.len(),
    ensures
        narrative(drafts, numbered).len() == drafts.len(),
        narrative(drafts, numbered)[i] == (EventView {
            id: EventId(
                if numbered {
                    (i + 1) as u64
                } else {
                    0
                },
            ),
            t_ms: offset_after(drafts.take(i + 1)) as u64,
            severity: drafts[i].severity,
            title: drafts[i].title,
            details: drafts[i].details,
            source: drafts[i].source,
        }),
    decreases drafts.len(),
{
    lemma_narrative_len(drafts, numbered);
    lemma_narrative_len(drafts.drop_last(), numbered);
    if i < drafts.len() - 1 {
        lemma_narrative_entry(drafts.drop_last(), numbered, i);
        assert(drafts.drop_last().take(i + 1) =~= drafts.take(i + 1));
    } else {
        assert(drafts.take(i + 1) =~= drafts);
    }
}

/// The events of a narrative come in the order of their offsets, as long as
/// the offsets fit.
pub proof fn lemma_narrative_is_in_order(drafts: Seq<Draft>, numbered: bool, i: int, j: int)
    requires
        0 <= i <= j < drafts.len(),
        offset_after(drafts) <= u64::MAX,
    ensures
        narrative(drafts, numbered)[i].t_ms <= narrative(drafts, numbered)[j].t_ms,
{
    lemma_narrative_entry(drafts, numbered, i);
    lemma_narrative_entry(drafts, numbered, j);
    let upto_j = drafts.take(j + 1);
    lemma_offsets_grow(upto_j, i + 1);
    assert(upto_j.take(i + 1) =~= drafts.take(i + 1));
    lemma_offsets_grow(drafts, j + 1);
}

proof fn lemma_offset_not_negative(drafts: Seq<Draft>)
    ensures
        0 <= offset_after(drafts),
    decreases drafts.len(),
{
    if drafts.len() > 0 {
        lemma_offset_not_negative(drafts.drop_last());
    }
}

/// Adds an event `delta` milliseconds after the last one.
fn push_event(
    events: &mut Vec<Event>,
    t_ms: &mut u64,
    delta: u64,
    severity: Severity,
    title: String,
    details: String,
    source: &str,
    Ghost(drafts): Ghost<Seq<Draft>>,
)
    requires
        old(events).deep_view() == narrative(drafts, false),
        *old(t_ms) == offset_after(drafts),
        *old(t_ms) + delta <= u64::MAX,
    ensures
        final(events).deep_view() == narrative(
            drafts.push(
                Draft { delta, severity, title: title@, details: details@, source: source@ },
            ),
            false,
        ),
        *final(t_ms) == offset_after(
            drafts.push(
                Draft { delta, severity, title: title@, details: details@, source: source@ },
            ),
        ),
        final(events)@.len() == old(events)@.len() + 1,
        *final(t_ms) == *old(t_ms) + delta,
{
    let ghost next = drafts.push(
        Draft { delta, severity, title: title@, details: details@, source: source@ },
    );
    assert(next.drop_last() =~= drafts);
    *t_ms = *t_ms + delta;
    let ghost before = events.deep_view();
    let event = Event { id: EventId(0), t_ms: *t_ms, severity, title, details, source: source.to_owned() };
    let ghost view = event.deep_view();
    events.push(event);
    assert(events.deep_view() =~= before.push(view));
}

/// A report with more modules, command lines and flagged allocations than
/// this cannot be told: the offsets of its narrative would not fit.
pub const NARRATIVE_LIMIT: u64 = 0x1000_0000_0000_0000;

/// The narrative of a dump can be told.
pub open spec fn tellable(report: MinidumpReport) -> bool {
    &&& report.modules@.len() + report.exec_artifacts@.len() + report.injected_regions@.len()
        <= NARRATIVE_LIMIT
    &&& report.stackwalk matches Some(walk) ==> walk.frame_count() <= usize::MAX
}

/// The events of the narrative of a dump, not yet numbered.
pub fn narrate(path: &str, file_size: u64, summary: &MinidumpSummary, report: &MinidumpReport) -> (events: Vec<Event>)
    requires
        tellable(*report),
    ensures
        events.deep_view() == narrative(drafts_of(path@, file_size, *summary, *report), false),
        events@.len() <= NARRATIVE_LIMIT + 8,
{
    let mut events: Vec<Event> = Vec::new();
    let mut t_ms: u64 = 0;
    let ghost mut drafts: Seq<Draft> = Seq::empty();
    assert(events.deep_view() =~= narrative(drafts, false));

    let mut details: Vec<char> = Vec::new();
    push_str(&mut details, "Path: ");
    push_str(&mut details, path);
    push_str(&mut details, "\nSize: ");
    push_dec(&mut details, file_size);
    push_str(&mut details, " bytes");
    assert(details@ =~= loaded_draft(path@, file_size).details);
    push_event(
        &mut events,
        &mut t_ms,
        0,
        Severity::Info,
        "Minidump loaded".to_owned(),
        string_of(details.as_slice()),
        "ingest::minidump",
        Ghost(drafts),
    );
    proof {
        drafts = drafts.push(loaded_draft(path@, file_size));
    }
    push_event(
        &mut events,
        &mut t_ms,
        10,
        Severity::Info,
        "Minidump summary".to_owned(),
        summary.pretty(),
        "ingest::minidump",
        Ghost(drafts),
    );
    proof {
        drafts = drafts.push(summary_draft(*summary));
        assert(drafts =~= seq![loaded_draft(path@, file_size), summary_draft(*summary)]);
    }
    let ghost first = drafts;
    if let Some(p) = &report.process {
        push_event(
            &mut events,
            &mut t_ms,
            10,
            Severity::Info,
            "Process info".to_owned(),
            format_process_info(p),
            "ingest::minidump",
            Ghost(drafts),
        );
        proof {
            drafts = drafts.push(process_drafts(report.process)[0]);
        }
    }
    assert(drafts =~= first + process_drafts(report.process));
    let ghost second = drafts;
    if report.exec_artifacts.len() > 0 {
        push_event(
            &mut events,
            &mut t_ms,
            10,
            Severity::Warning,
            "Execution artifacts recovered".to_owned(),
            format_exec_artifacts(report.exec_artifacts.as_slice(), ARTIFACTS_SHOWN),
            "ingest::minidump",
            Ghost(drafts),
        );
        proof {
            drafts = drafts.push(artifact_drafts(report.exec_artifacts@)[0]);
        }
    }
    assert(drafts =~= second + artifact_drafts(report.exec_artifacts@));
    let ghost third = drafts;
    if let Some(exc) = &report.exception {
        let mut details: Vec<char> = Vec::new();
        push_str(&mut details, "thread_id=");
        push_dec(&mut details, exc.thread_id as u64);
        push_str(&mut details, "\ncode=0x");
        push_hex_padded(&mut details, exc.code as u64, 8, '0');
        push_str(&mut details, "\naddress=0x");
        push_hex_padded(&mut details, exc.address, 16, '0');
        assert(details@ =~= exception_event_text(*exc));
        push_event(
            &mut events,
            &mut t_ms,
            10,
            Severity::High,
            "Exception stream present".to_owned(),
            string_of(details.as_slice()),
            "ingest::minidump",
            Ghost(drafts),
        );
        proof {
            drafts = drafts.push(exception_drafts(report.exception)[0]);
        }
    }
    assert(drafts =~= third + exception_drafts(report.exception));
    let ghost fourth = drafts;
    assert(t_ms <= 40 && events@.len() <= 5);
    if let Some(walk) = &report.stackwalk {
        push_event(
            &mut events,
            &mut t_ms,
            10,
            Severity::Info,
            "Stackwalk completed".to_owned(),
            format_stackwalk_summary(walk),
            "ingest::stackwalk",
            Ghost(drafts),
        );
        proof {
            drafts = drafts.push(stackwalk_drafts(*report)[0]);
        }
        let trace = report.exception_stack();
        proof {
            if report.exception is Some {
                lemma_trace_of(walk.threads@, report.exception->0.thread_id, trace);
            }
        }
        if let Some(stack) = trace {
            if stack.frames.len() > 0 {
                push_event(
                    &mut events,
                    &mut t_ms,
                    5,
                    Severity::Info,
                    "Exception thread call stack".to_owned(),
                    format_exception_stack_preview(stack, FRAMES_SHOWN),
                    "ingest::stackwalk",
                    Ghost(drafts),
                );
                proof {
                    drafts = drafts.push(stackwalk_drafts(*report)[1]);
                }
            }
        }
    } else if let Some(err) = &report.stackwalk_error {
        push_event(
            &mut events,
            &mut t_ms,
            10,
            Severity::Warning,
            "Stackwalk failed".to_owned(),
            err.clone(),
            "ingest::stackwalk",
            Ghost(drafts),
        );
        proof {
            drafts = drafts.push(stackwalk_drafts(*report)[0]);
        }
    }
    assert(drafts =~= fourth + stackwalk_drafts(*report));
    let ghost fifth = drafts;
    assert(t_ms <= 55 && events@.len() <= 7);
    let detections = report.detections();
    proof {
        lemma_detections_are_bounded(*report);
    }
    let ghost found = detections.deep_view();
    let ghost items = detections@;
    assert(found.len() == items.len());
    for det in it: detections
        invariant
            it.seq() == items,
            found == items.map_values(|d: Detection| d.deep_view()),
            found.len() <= NARRATIVE_LIMIT + 1,
            drafts == fifth + detection_drafts(found).take(it.index()),
            events.deep_view() == narrative(drafts, false),
            t_ms == offset_after(drafts),
            t_ms <= 55 + 5 * it.index(),
            events@.len() <= 7 + it.index(),
    {
        let ghost i = it.index();
        assert(found[i] == det.deep_view());
        let mut title: Vec<char> = Vec::new();
        push_str(&mut title, "Detection: ");
        push_str(&mut title, det.title.as_str());
        assert(title@ =~= "Detection: "@ + det.title@);
        push_event(
            &mut events,
            &mut t_ms,
            5,
            det.severity,
            string_of(title.as_slice()),
            det.details,
            "detector::basic",
            Ghost(drafts),
        );
        proof {
            drafts = drafts.push(detection_draft(found[i]));
            assert(drafts =~= fifth + detection_drafts(found).take(i + 1));
        }
    }
    proof {
        assert(detection_drafts(found).take(found.len() as int) =~= detection_drafts(found));
        assert(drafts =~= drafts_of(path@, file_size, *summary, *report));
    }
    events
}

proof fn lemma_narrative_len(drafts: Seq<Draft>, numbered: bool)
    ensures
        narrative(drafts, numbered).len() == drafts.len(),
    decreases drafts.len(),
{
    if drafts.len() > 0 {
        lemma_narrative_len(drafts.drop_last(), numbered);
    }
}

proof fn lemma_numbering(events: Seq<Event>, n: int)
    requires
        0 <= n <= events.len(),
        n < u64::MAX,
        forall|i: int| 0 <= i < events.len() ==> (#[trigger] events[i]).id == EventId(0),
    ensures
        next_after(ids_of(events), n) == if n == 0 {
            0
        } else {
            n + 1
        },
        stored(events, n).len() == n,
        forall|i: int|
            0 <= i < n ==> #[trigger] stored(events, n)[i] == (EventView {
                id: EventId((i + 1) as u64),
                ..events[i].deep_view()
            }),
    decreases n,
{
    if n > 0 {
        lemma_numbering(events, n - 1);
        assert(ids_of(events)[n - 1] == events[n - 1].id);
    }
}

/// What was made of a dump.
pub struct IngestedMinidump {
    pub summary: MinidumpSummary,
    pub report: MinidumpReport,
    pub events: EventStore,
}

/// The decoded streams of a dump, each present only if the dump holds it and
/// it could be read.
#[derive(Clone, Debug)]
pub struct DumpStreams {
    /// Size of the dump file in bytes.
    pub file_size: u64,
    /// Time stamp in the header of the dump.
    pub time_date_stamp: u32,
    /// Name of the operating system, from the system information.
    pub os: Option<String>,
    /// Name of the processor family, from the system information.
    pub cpu: Option<String>,
    pub threads: Option<Vec<RawThread>>,
    pub modules: Option<Vec<RawModule>>,
    pub misc: Option<RawMiscInfo>,
    /// The regions of the older memory list.
    pub memory: Option<Vec<MemoryRegion>>,
    /// The regions of the 64-bit memory list.
    pub memory64: Option<Vec<MemoryRegion>>,
    pub exception: Option<ExceptionInfo>,
}

/// Largest number of records of memory-protection metadata, and of threads
/// and modules together, for which the narrative of a dump can be told.
pub const STREAM_LIMIT: u64 = 0x0400_0000_0000_0000;

/// Number of items of the list, if there is a list.
pub open spec fn length_of<T>(list: Option<Vec<T>>) -> Option<usize> {
    match list {
        Some(v) => Some(v@.len() as usize),
        None => None,
    }
}

/// The items of the list; none when there is no list.
pub open spec fn items_of<T>(list: Option<Vec<T>>) -> Seq<T> {
    match list {
        Some(v) => v@,
        None => Seq::empty(),
    }
}

/// Thread, code and address of the exception, on one line.
pub open spec fn exception_summary_text(e: ExceptionInfo) -> Seq<char> {
    "thread_id="@ + dec_text(e.thread_id as nat) + " code=0x"@ + pad_left(
        hex_text(e.code as nat),
        8,
        '0',
    ) + " addr=0x"@ + pad_left(hex_text(e.address as nat), 16, '0')
}

/// The summary tells the headline facts of the streams.
pub open spec fn summary_matches(summary: MinidumpSummary, streams: DumpStreams) -> bool {
    &&& summary.file_size == Some(streams.file_size)
    &&& summary.time_date_stamp == Some(streams.time_date_stamp)
    &&& text(summary.os) == text(streams.os)
    &&& text(summary.cpu) == text(streams.cpu)
    &&& summary.thread_count == length_of(streams.threads)
    &&& summary.module_count == length_of(streams.modules)
    &&& text(summary.exception) == match streams.exception {
        Some(e) => Some(exception_summary_text(e)),
        None => None,
    }
}

/// The report holds what the streams say, what was recovered from the raw
/// memory, and the allocations that were flagged.
pub open spec fn report_matches(
    report: MinidumpReport,
    streams: DumpStreams,
    meminfo: Option<&MinidumpMemoryInfoList<'_>>,
    stackwalk: Result<StackwalkReport, String>,
) -> bool {
    &&& text(report.os) == text(streams.os)
    &&& text(report.cpu) == text(streams.cpu)
    &&& threads_match(report.threads@, items_of(streams.threads))
    &&& modules_match(report.modules@, items_of(streams.modules))
    &&& report.process is Some <==> process_known(streams.misc, report.modules@)
    &&& report.process matches Some(p) ==> process_matches(p, streams.misc, report.modules@)
    &&& report.memory_region_count == length_of(streams.memory)
    &&& report.memory_region_64_count == length_of(streams.memory64)
    &&& report.memory_info_region_count == match meminfo {
        Some(list) => Some(memory_info_entries(list).len() as usize),
        None => None,
    }
    &&& report.exec_artifacts.deep_view() == recovered(
        match streams.memory64 {
            Some(list) => list@,
            None => items_of(streams.memory),
        },
    )
    &&& lists_allocations(
        report.injected_regions.deep_view(),
        gathered(entries_of(meminfo), report.modules@, report.threads@, report.exec_artifacts@),
        meminfo is Some,
    )
    &&& report.exception == streams.exception
    &&& match stackwalk {
        Ok(walk) => report.stackwalk == Some(walk) && report.stackwalk_error is None,
        Err(why) => report.stackwalk is None && text(report.stackwalk_error) == Some(why@),
    }
}

fn length<T>(list: &Option<Vec<T>>) -> (n: Option<usize>)
    ensures
        n == length_of(*list),
{
    match list {
        Some(v) => Some(v.len()),
        None => None,
    }
}

fn exception_summary(e: &ExceptionInfo) -> (r: String)
    ensures
        r@ == exception_summary_text(*e),
{
    let mut out: Vec<char> = Vec::new();
    push_str(&mut out, "thread_id=");
    push_dec(&mut out, e.thread_id as u64);
    push_str(&mut out, " code=0x");
    push_hex_padded(&mut out, e.code as u64, 8, '0');
    push_str(&mut out, " addr=0x");
    push_hex_padded(&mut out, e.address, 16, '0');
    assert(out@ =~= exception_summary_text(*e));
    string_of(out.as_slice())
}

/// The streams are small enough for the narrative of the dump to be told.
pub open spec fn ingestible(
    streams: DumpStreams,
    meminfo: Option<&MinidumpMemoryInfoList<'_>>,
    stackwalk: Result<StackwalkReport, String>,
) -> bool {
    &&& items_of(streams.threads).len() + items_of(streams.modules).len() <= STREAM_LIMIT
    &&& meminfo matches Some(list) ==> memory_info_entries(list).len() <= STREAM_LIMIT
    &&& stackwalk matches Ok(walk) ==> walk.frame_count() <= usize::MAX
}

/// Makes the report of a dump, its summary and its narrative from the
/// decoded streams.
///
/// A stream that is absent leaves its part of the report absent.  The
/// command lines are recovered from the 64-bit memory list when the dump has
/// one, else from the older memory list.  The events of the narrative are
/// numbered from one, in order.
pub fn ingest(
    path: &str,
    streams: DumpStreams,
    meminfo: Option<&MinidumpMemoryInfoList<'_>>,
    stackwalk: Result<StackwalkReport, String>,
) -> (r: IngestedMinidump)
    requires
        ingestible(streams, meminfo, stackwalk),
    ensures
        summary_matches(r.summary, streams),
        report_matches(r.report, streams, meminfo, stackwalk),
        r.events.wf(),
        r.events.deep_view() == narrative(
            drafts_of(path@, streams.file_size, r.summary, r.report),
            true,
        ),
{
    let file_size = streams.file_size;
    let thread_count = length(&streams.threads);
    let module_count = length(&streams.modules);
    let memory_region_count = length(&streams.memory);
    let memory_region_64_count = length(&streams.memory64);
    let exec_artifacts = extract_exec_artifacts(
        match &streams.memory64 {
            Some(list) => Some(list),
            None => None,
        },
        match &streams.memory {
            Some(list) => Some(list),
            None => None,
        },
    );
    let summary = MinidumpSummary {
        file_size: Some(file_size),
        time_date_stamp: Some(streams.time_date_stamp),
        os: clone_text(&streams.os),
        cpu: clone_text(&streams.cpu),
        module_count,
        thread_count,
        exception: match &streams.exception {
            Some(e) => Some(exception_summary(e)),
            None => None,
        },
    };
    let threads = match streams.threads {
        Some(list) => extract_threads(list),
        None => Vec::new(),
    };
    let modules = match streams.modules {
        Some(list) => extract_modules(list),
        None => Vec::new(),
    };
    let process = extract_process_info(
        match &streams.misc {
            Some(m) => Some(m),
            None => None,
        },
        modules.as_slice(),
    );
    let memory_info_region_count = match meminfo {
        Some(list) => Some(memory_info_count(list)),
        None => None,
    };
    let injected_regions = detect_injected_regions(
        meminfo,
        modules.as_slice(),
        threads.as_slice(),
        exec_artifacts.as_slice(),
    );
    let (walk, stackwalk_error) = match stackwalk {
        Ok(walk) => (Some(walk), None),
        Err(why) => (None, Some(why)),
    };
    let report = MinidumpReport {
        os: streams.os,
        cpu: streams.cpu,
        process,
        exec_artifacts,
        injected_regions,
        memory_region_count,
        memory_region_64_count,
        memory_info_region_count,
        modules,
        threads,
        exception: streams.exception,
        stackwalk: walk,
        stackwalk_error,
    };
    let events = narrate(path, file_size, &summary, &report);
    proof {
        let drafts = drafts_of(path@, file_size, summary, report);
        let n = events@.len() as int;
        lemma_narrative_len(drafts, false);
        lemma_narrative_len(drafts, true);
        assert(events.deep_view().len() == n);
        assert forall|i: int| 0 <= i < n implies (#[trigger] events@[i]).id == EventId(0) by {
            lemma_narrative_entry(drafts, false, i);
            assert(events.deep_view()[i] == events@[i].deep_view());
        }
        lemma_numbering(events@, n);
        assert(stored(events@, n) =~= narrative(drafts, true)) by {
            assert forall|i: int| 0 <= i < n implies stored(events@, n)[i] == narrative(
                drafts,
                true,
            )[i] by {
                lemma_narrative_entry(drafts, false, i);
                lemma_narrative_entry(drafts, true, i);
                assert(events.deep_view()[i] == events@[i].deep_view());
            }
        }
    }
    let store = EventStore::from_events(events);
    IngestedMinidump { summary, report, events: store }
}

/// [`ingest`], for streams of any size: nothing is made of streams that are
/// too large for the narrative of the dump to be told.
pub fn try_ingest(
    path: &str,
    streams: DumpStreams,
    meminfo: Option<&MinidumpMemoryInfoList<'_>>,
    stackwalk: Result<StackwalkReport, String>,
) -> (r: Option<IngestedMinidump>)
    ensures
        r is Some <==> ingestible(streams, meminfo, stackwalk),
        r matches Some(made) ==> {
            &&& summary_matches(made.summary, streams)
            &&& report_matches(made.report, streams, meminfo, stackwalk)
            &&& made.events.wf()
            &&& made.events.deep_view() == narrative(
                drafts_of(path@, streams.file_size, made.summary, made.report),
                true,
            )
        },
{
    let threads = match &streams.threads {
        Some(list) => list.len(),
        None => 0,
    };
    let modules = match &streams.modules {
        Some(list) => list.len(),
        None => 0,
    };
    if threads as u128 + modules as u128 > STREAM_LIMIT as u128 {
        return None;
    }
    if let Some(list) = meminfo {
        if memory_info_count(list) as u64 > STREAM_LIMIT {
            return None;
        }
    }
    if let Ok(walk) = &stackwalk {
        if walk.checked_total_frames().is_none() {
            return None;
        }
    }
    Some(ingest(path, streams, meminfo, stackwalk))
}

} // verus!
