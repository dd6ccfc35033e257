//! The report of a dump and the rules that turn it into detections.

use crate::model::Severity;
use crate::text::{
    chars_of, contains, contains_any, dec_text, has_any, hex_text, join, join_texts, lower,
    pad_left, push_chars, push_dec, push_hex, push_hex_padded, push_str, string_of, table_of,
    to_lower, views, words,
};
use vstd::prelude::*;

verus! {

/// Everything recovered from one dump.
#[derive(Clone, Debug)]
pub struct MinidumpReport {
    pub os: Option<String>,
    pub cpu: Option<String>,
    /// The process that produced the dump; absent when nothing about it was
    /// recoverable.
    pub process: Option<ProcessInfo>,
    /// Command lines recovered from raw memory.
    pub exec_artifacts: Vec<ProcessExecArtifact>,
    /// Allocations that look like injected or generated code.
    pub injected_regions: Vec<InjectedRegion>,
    pub memory_region_count: Option<usize>,
    pub memory_region_64_count: Option<usize>,
    pub memory_info_region_count: Option<usize>,
    pub modules: Vec<ModuleInfo>,
    pub threads: Vec<ThreadInfo>,
    pub exception: Option<ExceptionInfo>,
    /// Call stacks, when the stack walk succeeded.
    pub stackwalk: Option<StackwalkReport>,
    /// Why the stack walk failed, when it did.
    pub stackwalk_error: Option<String>,
}

#[derive(Clone, Debug)]
pub struct ProcessInfo {
    pub pid: Option<u32>,
    /// Seconds since the Unix epoch.
    pub create_time_unix: Option<u64>,
    pub integrity_level: Option<u32>,
    pub execute_flags: Option<u32>,
    pub protected_process: Option<u32>,
    pub main_image: Option<String>,
    pub main_image_version: Option<String>,
}

/// Encoding in which a recovered command line stood in memory.
#[derive(Clone, Copy, Debug, PartialEq, Eq, Structural)]
pub enum ExecArtifactEncoding {
    Ascii,
    Utf16Le,
}

/// A command line recovered from raw memory.
#[derive(Clone, Debug)]
pub struct ProcessExecArtifact {
    /// Executable or script named by the command line.
    pub image: String,
    /// The whole command line.
    pub command_line: String,
    pub encoding: ExecArtifactEncoding,
    /// Address of the first character, when known.
    pub address: Option<u64>,
}

/// What a [`ProcessExecArtifact`] holds, with its texts as character sequences.
#[verifier::ext_equal]
pub struct ProcessExecArtifactView {
    pub image: Seq<char>,
    pub command_line: Seq<char>,
    pub encoding: ExecArtifactEncoding,
    pub address: Option<u64>,
}

impl DeepView for ProcessExecArtifact {
    type V = ProcessExecArtifactView;

    open spec fn deep_view(&self) -> ProcessExecArtifactView {
        ProcessExecArtifactView {
            image: self.image@,
            command_line: self.command_line@,
            encoding: self.encoding,
            address: self.address,
        }
    }
}

/// One allocation flagged as possibly injected code.
#[derive(Clone, Debug)]
pub struct InjectedRegion {
    /// Allocation base.
    pub base: u64,
    /// Bytes of the allocation's regions that were seen, each region once.
    pub size: u64,
    /// Protection flags, as text.
    pub protection: String,
    /// Memory type flags, as text.
    pub ty: String,
    /// Memory state flags, as text.
    pub state: String,
    /// Why the allocation was flagged; no reason occurs twice.
    pub reasons: Vec<String>,
    pub risk: Severity,
}

/// What an [`InjectedRegion`] holds, with its texts as character sequences.
#[verifier::ext_equal]
pub struct InjectedRegionView {
    pub base: u64,
    pub size: u64,
    pub protection: Seq<char>,
    pub ty: Seq<char>,
    pub state: Seq<char>,
    pub reasons: Seq<Seq<char>>,
    pub risk: Severity,
}

impl DeepView for InjectedRegion {
    type V = InjectedRegionView;

    open spec fn deep_view(&self) -> InjectedRegionView {
        InjectedRegionView {
            base: self.base,
            size: self.size,
            protection: self.protection@,
            ty: self.ty@,
            state: self.state@,
            reasons: self.reasons.deep_view(),
            risk: self.risk,
        }
    }
}

/// A loaded module; it occupies the addresses from `base` up to, not
/// including, `base + size`.
#[derive(Clone, Debug)]
pub struct ModuleInfo {
    pub name: String,
    pub base: u64,
    pub size: u64,
    pub checksum: u32,
    pub time_date_stamp: u32,
    pub file_version: Option<String>,
}

#[derive(Clone, Debug)]
pub struct ThreadInfo {
    pub thread_id: u32,
    pub name: Option<String>,
    /// Creation time in 100 ns ticks since 1601-01-01 UTC.
    pub create_time_filetime: Option<u64>,
    /// Creation time in seconds since the Unix epoch, when it is not before it.
    pub create_time_unix: Option<u64>,
    /// Address at which the thread started, when known and not zero.
    pub start_address: Option<u64>,
    pub suspend_count: u32,
    pub priority_class: u32,
    pub priority: u32,
    pub teb: u64,
    pub stack_start: u64,
    pub stack_size: u64,
}

#[derive(Clone, Copy, Debug, PartialEq, Eq, Structural)]
pub struct ExceptionInfo {
    pub thread_id: u32,
    pub code: u32,
    pub flags: u32,
    pub address: u64,
    pub number_parameters: u32,
}

/// Call stacks of the threads of the dump.
#[derive(Clone, Debug)]
pub struct StackwalkReport {
    pub requesting_thread_id: Option<u32>,
    /// Directories searched for symbol files.
    pub symbol_paths: Vec<String>,
    pub symbolicated_frames: usize,
    pub modules_with_symbols: usize,
    pub notes: Vec<String>,
    pub threads: Vec<ThreadStackTrace>,
}

#[derive(Clone, Debug)]
pub struct ThreadStackTrace {
    pub thread_id: u32,
    pub thread_name: Option<String>,
    pub status: String,
    pub is_requesting_thread: bool,
    pub frames: Vec<StackFrameInfo>,
}

#[derive(Clone, Debug)]
pub struct StackFrameInfo {
    pub index: usize,
    pub instruction: u64,
    pub module: Option<String>,
    pub module_base: Option<u64>,
    pub module_offset: Option<u64>,
    pub function: Option<String>,
    pub function_offset: Option<u64>,
    pub source_file: Option<String>,
    pub source_line: Option<u32>,
    pub trust: String,
}

/// A finding of the rule engine.
#[derive(Clone, Debug)]
pub struct Detection {
    pub severity: Severity,
    pub title: String,
    pub details: String,
}

/// What a [`Detection`] holds, with its texts as character sequences.
#[verifier::ext_equal]
pub struct DetectionView {
    pub severity: Severity,
    pub title: Seq<char>,
    pub details: Seq<char>,
}

impl DeepView for Detection {
    type V = DetectionView;

    open spec fn deep_view(&self) -> DetectionView {
        DetectionView { severity: self.severity, title: self.title@, details: self.details@ }
    }
}

/// Names of system tools that attackers run in place of their own programs.
pub open spec fn lolbin_tokens() -> Seq<Seq<char>> {
    seq![
        "powershell"@,
        "pwsh"@,
        "cmd.exe"@,
        "wscript"@,
        "cscript"@,
        "mshta"@,
        "rundll32"@,
        "regsvr32"@,
        "schtasks"@,
        "wmic"@,
        "certutil"@,
        "bitsadmin"@,
        "msbuild"@,
        "installutil"@,
    ]
}

/// Switches that hand an encoded command to a shell.
pub open spec fn encoded_command_tokens() -> Seq<Seq<char>> {
    seq!["-enc"@, "-encodedcommand"@]
}

/// Marks of code that is decoded and run in memory.
pub open spec fn in_memory_tokens() -> Seq<Seq<char>> {
    seq!["frombase64string"@, "iex"@, "invoke-expression"@]
}

/// Marks of a path below a directory for temporary files.
pub open spec fn temp_path_tokens() -> Seq<Seq<char>> {
    seq!["\\appdata\\local\\temp\\"@, "\\temp\\"@, "/tmp/"@]
}

/// Marks of a network address.
pub open spec fn network_tokens() -> Seq<Seq<char>> {
    seq!["http://"@, "https://"@]
}

/// The lookup tables of the rules, as character buffers.
pub struct RuleTables {
    pub lolbins: Vec<Vec<char>>,
    pub encoded_command: Vec<Vec<char>>,
    pub in_memory: Vec<Vec<char>>,
    pub temp_path: Vec<Vec<char>>,
    pub network: Vec<Vec<char>>,
}

impl RuleTables {
    /// The tables hold what the rules name.
    pub open spec fn wf(&self) -> bool {
        &&& views(self.lolbins@) == lolbin_tokens()
        &&& views(self.encoded_command@) == encoded_command_tokens()
        &&& views(self.in_memory@) == in_memory_tokens()
        &&& views(self.temp_path@) == temp_path_tokens()
        &&& views(self.network@) == network_tokens()
    }

    pub fn new() -> (t: RuleTables)
        ensures
            t.wf(),
    {
        let lolbins = vec![
            "powershell",
            "pwsh",
            "cmd.exe",
            "wscript",
            "cscript",
            "mshta",
            "rundll32",
            "regsvr32",
            "schtasks",
            "wmic",
            "certutil",
            "bitsadmin",
            "msbuild",
            "installutil",
        ];
        assert(words(lolbins@) =~= lolbin_tokens());
        let encoded_command = vec!["-enc", "-encodedcommand"];
        assert(words(encoded_command@) =~= encoded_command_tokens());
        let in_memory = vec!["frombase64string", "iex", "invoke-expression"];
        assert(words(in_memory@) =~= in_memory_tokens());
        let temp_path = vec!["\\appdata\\local\\temp\\", "\\temp\\", "/tmp/"];
        assert(words(temp_path@) =~= temp_path_tokens());
        let network = vec!["http://", "https://"];
        assert(words(network@) =~= network_tokens());
        RuleTables {
            lolbins: table_of(lolbins),
            encoded_command: table_of(encoded_command),
            in_memory: table_of(in_memory),
            temp_path: table_of(temp_path),
            network: table_of(network),
        }
    }
}

/// `one` if `fired`, nothing otherwise.
pub open spec fn reason_if(fired: bool, one: Seq<char>) -> Seq<Seq<char>> {
    if fired {
        seq![one]
    } else {
        Seq::empty()
    }
}

/// What makes a lowered command line worse than the mere use of a system
/// tool, in the order of the rules.
pub open spec fn fired_reasons(cl: Seq<char>) -> Seq<Seq<char>> {
    reason_if(contains_any(cl, encoded_command_tokens()), "encoded command"@) + reason_if(
        contains_any(cl, in_memory_tokens()),
        "in-memory execution pattern"@,
    ) + reason_if(contains_any(cl, temp_path_tokens()), "temp path"@) + reason_if(
        contains_any(cl, network_tokens()),
        "network indicator"@,
    )
}

/// The image or the command line names a system tool, in any case of letters.
pub open spec fn names_lolbin(a: ProcessExecArtifactView) -> bool {
    contains_any(lower(a.image), lolbin_tokens()) || contains_any(
        lower(a.command_line),
        lolbin_tokens(),
    )
}

/// Image and command line, after the sub-reasons when any fired.
pub open spec fn artifact_details(a: ProcessExecArtifactView, reasons: Seq<Seq<char>>) -> Seq<char> {
    if reasons.len() == 0 {
        "Image: "@ + a.image + "\nCommand line: "@ + a.command_line
    } else {
        "Reasons: "@ + join(reasons, ", "@) + "\nImage: "@ + a.image + "\nCommand line: "@
            + a.command_line
    }
}

/// The detection that a recovered command line gives rise to, if any: one
/// that names a system tool is a warning, and of high severity as soon as a
/// sub-reason fires.
pub open spec fn artifact_detection(a: ProcessExecArtifactView) -> Option<DetectionView> {
    if !names_lolbin(a) {
        None
    } else {
        let reasons = fired_reasons(lower(a.command_line));
        Some(
            DetectionView {
                severity: if reasons.len() == 0 {
                    Severity::Warning
                } else {
                    Severity::High
                },
                title: "Suspicious execution artifact"@,
                details: artifact_details(a, reasons),
            },
        )
    }
}

fn push_when(reasons: &mut Vec<Vec<char>>, fired: bool, one: &str)
    ensures
        views(final(reasons)@) == views(old(reasons)@) + reason_if(fired, one@),
{
    if fired {
        reasons.push(chars_of(one));
    }
    assert(views(reasons@) =~= views(old(reasons)@) + reason_if(fired, one@));
}

/// [`detect_exec_artifact`] with the tables at hand.
pub fn detect_exec_artifact_with(a: &ProcessExecArtifact, tables: &RuleTables) -> (r: Option<
    Detection,
>)
    requires
        tables.wf(),
    ensures
        r.deep_view() == artifact_detection(a.deep_view()),
{
    let image = chars_of(a.image.as_str());
    let command_line = chars_of(a.command_line.as_str());
    let img = to_lower(image.as_slice());
    let cl = to_lower(command_line.as_slice());
    if !(has_any(img.as_slice(), &tables.lolbins) || has_any(cl.as_slice(), &tables.lolbins)) {
        return None;
    }
    let mut reasons: Vec<Vec<char>> = Vec::new();
    assert(views(reasons@) =~= Seq::<Seq<char>>::empty());
    push_when(&mut reasons, has_any(cl.as_slice(), &tables.encoded_command), "encoded command");
    push_when(
        &mut reasons,
        has_any(cl.as_slice(), &tables.in_memory),
        "in-memory execution pattern",
    );
    push_when(&mut reasons, has_any(cl.as_slice(), &tables.temp_path), "temp path");
    push_when(&mut reasons, has_any(cl.as_slice(), &tables.network), "network indicator");
    assert(views(reasons@) =~= fired_reasons(lower(a.command_line@)));
    let mut details: Vec<char> = Vec::new();
    if reasons.len() > 0 {
        push_str(&mut details, "Reasons: ");
        let joined = join_texts(&reasons, ", ");
        push_chars(&mut details, joined.as_slice());
        push_str(&mut details, "\nImage: ");
    } else {
        push_str(&mut details, "Image: ");
    }
    push_chars(&mut details, image.as_slice());
    push_str(&mut details, "\nCommand line: ");
    push_chars(&mut details, command_line.as_slice());
    assert(details@ =~= artifact_details(a.deep_view(), views(reasons@)));
    let severity = if reasons.len() == 0 {
        Severity::Warning
    } else {
        Severity::High
    };
    Some(
        Detection {
            severity,
            title: "Suspicious execution artifact".to_owned(),
            details: string_of(details.as_slice()),
        },
    )
}

/// The detection for one recovered command line, if it deserves one.
pub fn detect_exec_artifact(a: &ProcessExecArtifact) -> (r: Option<Detection>)
    ensures
        r.deep_view() == artifact_detection(a.deep_view()),
{
    let tables = RuleTables::new();
    detect_exec_artifact_with(a, &tables)
}

/// A command line that names a system tool and holds the switch `-enc`,
/// wherever in the line and in whatever case of letters, is reported at high
/// severity, and "encoded command" is the first of the reasons given.
pub proof fn lemma_encoded_command_is_high(a: ProcessExecArtifactView)
    requires
        names_lolbin(a),
        contains(lower(a.command_line), "-enc"@),
    ensures
        artifact_detection(a) matches Some(d) && d.severity == Severity::High && d.details
            == artifact_details(a, fired_reasons(lower(a.command_line))),
        fired_reasons(lower(a.command_line)).len() > 0,
        fired_reasons(lower(a.command_line))[0] == "encoded command"@,
{
    assert(encoded_command_tokens()[0] == "-enc"@);
}

/// Exception code of an access violation.
pub const ACCESS_VIOLATION: u32 = 0xC000_0005;

/// Where the access violation happened, and in which thread.
pub open spec fn access_violation_details(address: u64, thread_id: u32) -> Seq<char> {
    "Exception code 0xC0000005 at address 0x"@ + pad_left(hex_text(address as nat), 16, '0')
        + " (thread_id="@ + dec_text(thread_id as nat) + ")."@
}

/// An access violation is reported with the faulting address and the thread
/// that owns the exception.
pub open spec fn exception_detections(exception: Option<ExceptionInfo>) -> Seq<DetectionView> {
    match exception {
        Some(e) => if e.code == ACCESS_VIOLATION {
            seq![
                DetectionView {
                    severity: Severity::High,
                    title: "Access violation"@,
                    details: access_violation_details(e.address, e.thread_id),
                },
            ]
        } else {
            Seq::empty()
        },
        None => Seq::empty(),
    }
}

/// The path names a directory for temporary files, in any case of letters.
pub open spec fn in_temp_path(name: Seq<char>) -> bool {
    contains_any(lower(name), temp_path_tokens())
}

/// The warning for a module that was loaded from a directory for temporary
/// files.
pub open spec fn module_detection(m: ModuleInfo) -> DetectionView {
    DetectionView {
        severity: Severity::Warning,
        title: "Module loaded from temp path"@,
        details: "Module: "@ + m.name@,
    }
}

/// One warning for each of the first `n` modules that was loaded from a
/// directory for temporary files, in module order.
pub open spec fn module_detections(modules: Seq<ModuleInfo>, n: int) -> Seq<DetectionView>
    decreases n,
{
    if n <= 0 {
        Seq::empty()
    } else if in_temp_path(modules[n - 1].name@) {
        module_detections(modules, n - 1).push(module_detection(modules[n - 1]))
    } else {
        module_detections(modules, n - 1)
    }
}

/// The detections that the first `n` recovered command lines give rise to,
/// in their order.
pub open spec fn artifact_detections(artifacts: Seq<ProcessExecArtifact>, n: int) -> Seq<
    DetectionView,
>
    decreases n,
{
    if n <= 0 {
        Seq::empty()
    } else {
        match artifact_detection(artifacts[n - 1].deep_view()) {
            Some(d) => artifact_detections(artifacts, n - 1).push(d),
            None => artifact_detections(artifacts, n - 1),
        }
    }
}

/// Each reason as an item of a list.
pub open spec fn bulleted(reasons: Seq<Seq<char>>) -> Seq<Seq<char>> {
    Seq::new(reasons.len(), |i: int| "- "@ + reasons[i])
}

/// The reasons as a list, one on each line.
pub open spec fn reasons_block(reasons: Seq<Seq<char>>) -> Seq<char> {
    if reasons.len() == 0 {
        "- (none)"@
    } else {
        join(bulleted(reasons), "\n"@)
    }
}

/// Base, size and flags of a flagged allocation, and the reasons for
/// flagging it.
pub open spec fn region_details(r: InjectedRegionView) -> Seq<char> {
    "base=0x"@ + pad_left(hex_text(r.base as nat), 16, '0') + " size=0x"@ + hex_text(r.size as nat)
        + "\nprotection="@ + r.protection + "\ntype="@ + r.ty + "\nstate="@ + r.state
        + "\n\nReasons:\n"@ + reasons_block(r.reasons)
}

/// Every flagged allocation is reported, at its own risk.
pub open spec fn region_detection(r: InjectedRegionView) -> DetectionView {
    DetectionView {
        severity: r.risk,
        title: "Suspicious executable memory allocation"@,
        details: region_details(r),
    }
}

/// One detection for each flagged allocation, in their order.
pub open spec fn region_detections(regions: Seq<InjectedRegion>) -> Seq<DetectionView> {
    Seq::new(regions.len(), |i: int| region_detection(regions[i].deep_view()))
}

/// The detection for a flagged allocation.
pub fn detect_region(r: &InjectedRegion) -> (d: Detection)
    ensures
        d.deep_view() == region_detection(r.deep_view()),
{
    let mut details: Vec<char> = Vec::new();
    push_str(&mut details, "base=0x");
    push_hex_padded(&mut details, r.base, 16, '0');
    push_str(&mut details, " size=0x");
    push_hex(&mut details, r.size);
    push_str(&mut details, "\nprotection=");
    push_str(&mut details, r.protection.as_str());
    push_str(&mut details, "\ntype=");
    push_str(&mut details, r.ty.as_str());
    push_str(&mut details, "\nstate=");
    push_str(&mut details, r.state.as_str());
    push_str(&mut details, "\n\nReasons:\n");
    let ghost head = details@;
    if r.reasons.len() == 0 {
        push_str(&mut details, "- (none)");
    } else {
        let mut items: Vec<Vec<char>> = Vec::new();
        let mut i: usize = 0;
        while i < r.reasons.len()
            invariant
                i <= r.reasons.len(),
                items@.len() == i,
                forall|k: int| 0 <= k < i ==> (#[trigger] items@[k])@ == "- "@ + r.reasons@[k]@,
            decreases r.reasons.len() - i,
        {
            let mut item: Vec<char> = Vec::new();
            push_str(&mut item, "- ");
            push_str(&mut item, r.reasons[i].as_str());
            assert(item@ =~= "- "@ + r.reasons@[i as int]@);
            items.push(item);
            i += 1;
        }
        assert(views(items@) =~= bulleted(r.reasons.deep_view()));
        let block = join_texts(&items, "\n");
        push_chars(&mut details, block.as_slice());
    }
    assert(details@ =~= head + reasons_block(r.reasons.deep_view()));
    assert(details@ =~= region_details(r.deep_view()));
    Detection {
        severity: r.risk,
        title: "Suspicious executable memory allocation".to_owned(),
        details: string_of(details.as_slice()),
    }
}

impl MinidumpReport {
    /// The detections of the report: the exception first, then the modules in
    /// module order, then the recovered command lines in their order, then
    /// the flagged allocations in their order.
    pub open spec fn detections_view(&self) -> Seq<DetectionView> {
        exception_detections(self.exception) + module_detections(
            self.modules@,
            self.modules@.len() as int,
        ) + artifact_detections(self.exec_artifacts@, self.exec_artifacts@.len() as int)
            + region_detections(self.injected_regions@)
    }

    pub fn detections(&self) -> (out: Vec<Detection>)
        ensures
            out.deep_view() == self.detections_view(),
    {
        let tables = RuleTables::new();
        let mut out: Vec<Detection> = Vec::new();
        if let Some(exc) = &self.exception {
            if exc.code == ACCESS_VIOLATION {
                let mut details: Vec<char> = Vec::new();
                push_str(&mut details, "Exception code 0xC0000005 at address 0x");
                push_hex_padded(&mut details, exc.address, 16, '0');
                push_str(&mut details, " (thread_id=");
                push_dec(&mut details, exc.thread_id as u64);
                push_str(&mut details, ").");
                assert(details@ =~= access_violation_details(exc.address, exc.thread_id));
                out.push(
                    Detection {
                        severity: Severity::High,
                        title: "Access violation".to_owned(),
                        details: string_of(details.as_slice()),
                    },
                );
            }
        }
        assert(out.deep_view() =~= exception_detections(self.exception));
        let ghost first = out.deep_view();
        let mut i: usize = 0;
        while i < self.modules.len()
            invariant
                i <= self.modules.len(),
                tables.wf(),
                out.deep_view() == first + module_detections(self.modules@, i as int),
            decreases self.modules.len() - i,
        {
            let m = &self.modules[i];
            let ghost before = out.deep_view();
            let name = chars_of(m.name.as_str());
            let lowered = to_lower(name.as_slice());
            if has_any(lowered.as_slice(), &tables.temp_path) {
                let mut details: Vec<char> = Vec::new();
                push_str(&mut details, "Module: ");
                push_chars(&mut details, name.as_slice());
                assert(details@ =~= "Module: "@ + m.name@);
                let d = Detection {
                    severity: Severity::Warning,
                    title: "Module loaded from temp path".to_owned(),
                    details: string_of(details.as_slice()),
                };
                out.push(d);
                assert(out.deep_view() =~= before.push(module_detection(*m)));
            }
            i += 1;
            assert(out.deep_view() =~= first + module_detections(self.modules@, i as int));
        }
        let ghost second = out.deep_view();
        let mut j: usize = 0;
        while j < self.exec_artifacts.len()
            invariant
                j <= self.exec_artifacts.len(),
                tables.wf(),
                out.deep_view() == second + artifact_detections(self.exec_artifacts@, j as int),
            decreases self.exec_artifacts.len() - j,
        {
            let ghost before = out.deep_view();
            if let Some(d) = detect_exec_artifact_with(&self.exec_artifacts[j], &tables) {
                let ghost dv = d.deep_view();
                out.push(d);
                assert(out.deep_view() =~= before.push(dv));
            }
            j += 1;
            assert(out.deep_view() =~= second + artifact_detections(
                self.exec_artifacts@,
                j as int,
            ));
        }
        let ghost third = out.deep_view();
        let mut k: usize = 0;
        while k < self.injected_regions.len()
            invariant
                k <= self.injected_regions.len(),
                out.deep_view() == third + region_detections(self.injected_regions@).take(k as int),
            decreases self.injected_regions.len() - k,
        {
            let ghost before = out.deep_view();
            let d = detect_region(&self.injected_regions[k]);
            let ghost dv = d.deep_view();
            out.push(d);
            assert(out.deep_view() =~= before.push(dv));
            k += 1;
            assert(out.deep_view() =~= third + region_detections(self.injected_regions@).take(
                k as int,
            ));
        }
        assert(region_detections(self.injected_regions@).take(k as int) =~= region_detections(
            self.injected_regions@,
        ));
        out
    }
}

/// An exception with the code of an access violation always yields, as the
/// first detection, one of high severity that is titled "Access violation"
/// and carries the address and the thread of the exception.
pub proof fn lemma_access_violation_is_reported(report: MinidumpReport)
    requires
        report.exception matches Some(e) && e.code == ACCESS_VIOLATION,
    ensures
        report.detections_view().len() > 0,
        report.detections_view()[0].severity == Severity::High,
        report.detections_view()[0].title == "Access violation"@,
        report.detections_view()[0].details == access_violation_details(
            report.exception->0.address,
            report.exception->0.thread_id,
        ),
{
}

/// `r` is the first trace of the thread `tid` among `threads`, or nothing
/// when the thread has none.
pub open spec fn first_trace_of(threads: Seq<ThreadStackTrace>, tid: u32, r: Option<&ThreadStackTrace>) -> bool {
    match r {
        Some(t) => exists|i: int|
            {
                &&& 0 <= i < threads.len()
                &&& #[trigger] threads[i] == *t
                &&& t.thread_id == tid
                &&& forall|j: int| 0 <= j < i ==> (#[trigger] threads[j]).thread_id != tid
            },
        None => forall|i: int| 0 <= i < threads.len() ==> (#[trigger] threads[i]).thread_id != tid,
    }
}

fn find_trace(threads: &Vec<ThreadStackTrace>, tid: u32) -> (r: Option<&ThreadStackTrace>)
    ensures
        first_trace_of(threads@, tid, r),
{
    let mut i: usize = 0;
    while i < threads.len()
        invariant
            i <= threads.len(),
            forall|j: int| 0 <= j < i ==> (#[trigger] threads@[j]).thread_id != tid,
        decreases threads.len() - i,
    {
        if threads[i].thread_id == tid {
            assert(threads@[i as int] == threads[i as int]);
            return Some(&threads[i]);
        }
        i += 1;
    }
    None
}

/// Number of frames of the first `n` traces together.
pub open spec fn frames_in(threads: Seq<ThreadStackTrace>, n: int) -> nat
    decreases n,
{
    if n <= 0 {
        0
    } else {
        frames_in(threads, n - 1) + threads[n - 1].frames@.len()
    }
}

proof fn lemma_frames_in_grows(threads: Seq<ThreadStackTrace>, i: int, n: int)
    requires
        0 <= i <= n,
    ensures
        frames_in(threads, i) <= frames_in(threads, n),
    decreases n - i,
{
    if i < n {
        lemma_frames_in_grows(threads, i, n - 1);
    }
}

impl StackwalkReport {
    /// Number of frames of all the threads together.
    pub open spec fn frame_count(&self) -> nat {
        frames_in(self.threads@, self.threads@.len() as int)
    }

    pub fn total_frames(&self) -> (r: usize)
        requires
            self.frame_count() <= usize::MAX,
        ensures
            r == self.frame_count(),
    {
        let mut total: usize = 0;
        let mut i: usize = 0;
        while i < self.threads.len()
            invariant
                i <= self.threads.len(),
                total == frames_in(self.threads@, i as int),
                self.frame_count() <= usize::MAX,
            decreases self.threads.len() - i,
        {
            proof {
                lemma_frames_in_grows(self.threads@, i + 1, self.threads@.len() as int);
            }
            total = total + self.threads[i].frames.len();
            i += 1;
        }
        total
    }
}

impl StackwalkReport {
    /// Number of frames of all the threads together, if it can be counted.
    pub fn checked_total_frames(&self) -> (r: Option<usize>)
        ensures
            r == if self.frame_count() <= usize::MAX {
                Some(self.frame_count() as usize)
            } else {
                None
            },
    {
        let mut total: usize = 0;
        let mut i: usize = 0;
        while i < self.threads.len()
            invariant
                i <= self.threads.len(),
                total == frames_in(self.threads@, i as int),
            decreases self.threads.len() - i,
        {
            proof {
                lemma_frames_in_grows(self.threads@, i + 1, self.threads@.len() as int);
            }
            match total.checked_add(self.threads[i].frames.len()) {
                Some(sum) => {
                    total = sum;
                },
                None => {
                    return None;
                },
            }
            i += 1;
        }
        Some(total)
    }
}

impl Default for StackwalkReport {
    fn default() -> (r: StackwalkReport)
        ensures
            r.requesting_thread_id is None,
            r.symbol_paths@.len() == 0,
            r.symbolicated_frames == 0,
            r.modules_with_symbols == 0,
            r.notes@.len() == 0,
            r.threads@.len() == 0,
    {
        StackwalkReport {
            requesting_thread_id: None,
            symbol_paths: Vec::new(),
            symbolicated_frames: 0,
            modules_with_symbols: 0,
            notes: Vec::new(),
            threads: Vec::new(),
        }
    }
}

impl Default for MinidumpReport {
    fn default() -> (r: MinidumpReport)
        ensures
            r.os is None,
            r.cpu is None,
            r.process is None,
            r.exec_artifacts@.len() == 0,
            r.injected_regions@.len() == 0,
            r.memory_region_count is None,
            r.memory_region_64_count is None,
            r.memory_info_region_count is None,
            r.modules@.len() == 0,
            r.threads@.len() == 0,
            r.exception is None,
            r.stackwalk is None,
            r.stackwalk_error is None,
    {
        MinidumpReport {
            os: None,
            cpu: None,
            process: None,
            exec_artifacts: Vec::new(),
            injected_regions: Vec::new(),
            memory_region_count: None,
            memory_region_64_count: None,
            memory_info_region_count: None,
            modules: Vec::new(),
            threads: Vec::new(),
            exception: None,
            stackwalk: None,
            stackwalk_error: None,
        }
    }
}

impl MinidumpReport {
    /// The latest creation time among the threads that have one.
    pub fn last_thread_create_time_unix(&self) -> (r: Option<u64>)
        ensures
            r is None <==> forall|i: int|
                0 <= i < self.threads@.len() ==> (#[trigger] self.threads@[i]).create_time_unix
                    is None,
            r matches Some(latest) ==> {
                &&& exists|i: int|
                    0 <= i < self.threads@.len() && (#[trigger] self.threads@[i]).create_time_unix
                        == Some(latest)
                &&& forall|i: int|
                    0 <= i < self.threads@.len() ==> ((#[trigger] self.threads@[i]).create_time_unix
                        matches Some(t) ==> t <= latest)
            },
    {
        let mut best: Option<u64> = None;
        let mut i: usize = 0;
        while i < self.threads.len()
            invariant
                i <= self.threads.len(),
                best is None <==> forall|k: int|
                    0 <= k < i ==> (#[trigger] self.threads@[k]).create_time_unix is None,
                best matches Some(latest) ==> {
                    &&& exists|k: int|
                        0 <= k < i && (#[trigger] self.threads@[k]).create_time_unix == Some(latest)
                    &&& forall|k: int|
                        0 <= k < i ==> ((#[trigger] self.threads@[k]).create_time_unix matches Some(
                            t,
                        ) ==> t <= latest)
                },
            decreases self.threads.len() - i,
        {
            if let Some(t) = self.threads[i].create_time_unix {
                match best {
                    Some(latest) => {
                        if t > latest {
                            best = Some(t);
                        }
                        assert(self.threads@[i as int].create_time_unix == Some(t));
                    },
                    None => {
                        best = Some(t);
                        assert(self.threads@[i as int].create_time_unix == Some(t));
                    },
                }
            }
            i += 1;
        }
        best
    }

    /// The call stack of the thread that owns the exception.
    pub fn exception_stack(&self) -> (r: Option<&ThreadStackTrace>)
        ensures
            match (self.exception, self.stackwalk) {
                (Some(e), Some(walk)) => first_trace_of(walk.threads@, e.thread_id, r),
                _ => r is None,
            },
    {
        match &self.exception {
            Some(e) => self.stackwalk_thread(e.thread_id),
            None => None,
        }
    }

    /// The call stack of the thread `thread_id`.
    pub fn stackwalk_thread(&self, thread_id: u32) -> (r: Option<&ThreadStackTrace>)
        ensures
            match self.stackwalk {
                Some(walk) => first_trace_of(walk.threads@, thread_id, r),
                None => r is None,
            },
    {
        match &self.stackwalk {
            Some(walk) => find_trace(&walk.threads, thread_id),
            None => None,
        }
    }
}

/// The first trace of the thread `tid` among `threads`, if it has one.
pub open spec fn trace_of(threads: Seq<ThreadStackTrace>, tid: u32) -> Option<ThreadStackTrace> {
    if exists|i: int| 0 <= i < threads.len() && (#[trigger] threads[i]).thread_id == tid {
        let first = choose|i: int|
            0 <= i < threads.len() && (#[trigger] threads[i]).thread_id == tid && forall|j: int|
                0 <= j < i ==> (#[trigger] threads[j]).thread_id != tid;
        Some(threads[first])
    } else {
        None
    }
}

pub proof fn lemma_trace_of(threads: Seq<ThreadStackTrace>, tid: u32, r: Option<&ThreadStackTrace>)
    requires
        first_trace_of(threads, tid, r),
    ensures
        match r {
            Some(t) => trace_of(threads, tid) == Some(*t),
            None => trace_of(threads, tid) is None,
        },
{
    if let Some(t) = r {
        let i = choose|i: int|
            {
                &&& 0 <= i < threads.len()
                &&& #[trigger] threads[i] == *t
                &&& t.thread_id == tid
                &&& forall|j: int| 0 <= j < i ==> (#[trigger] threads[j]).thread_id != tid
            };
        assert(threads[i].thread_id == tid);
        let first = choose|k: int|
            0 <= k < threads.len() && (#[trigger] threads[k]).thread_id == tid && forall|j: int|
                0 <= j < k ==> (#[trigger] threads[j]).thread_id != tid;
        assert(0 <= first < threads.len() && threads[first].thread_id == tid && forall|j: int|
            0 <= j < first ==> (#[trigger] threads[j]).thread_id != tid);
        if first < i {
            assert(threads[first].thread_id != tid);
        }
        if i < first {
            assert(threads[i].thread_id != tid);
        }
    }
}

impl MinidumpReport {
    /// The call stack of the thread that owns the exception, if there is an
    /// exception and the thread was walked.
    pub open spec fn exception_trace(&self) -> Option<ThreadStackTrace> {
        match (self.exception, self.stackwalk) {
            (Some(e), Some(walk)) => trace_of(walk.threads@, e.thread_id),
            _ => None,
        }
    }
}

proof fn lemma_module_detections_len(modules: Seq<ModuleInfo>, n: int)
    requires
        0 <= n,
    ensures
        module_detections(modules, n).len() <= n,
    decreases n,
{
    if n > 0 {
        lemma_module_detections_len(modules, n - 1);
    }
}

proof fn lemma_artifact_detections_len(artifacts: Seq<ProcessExecArtifact>, n: int)
    requires
        0 <= n,
    ensures
        artifact_detections(artifacts, n).len() <= n,
    decreases n,
{
    if n > 0 {
        lemma_artifact_detections_len(artifacts, n - 1);
    }
}

/// There are no more detections than one for the exception and one for each
/// module, command line and flagged allocation.
pub proof fn lemma_detections_are_bounded(report: MinidumpReport)
    ensures
        report.detections_view().len() <= 1 + report.modules@.len() + report.exec_artifacts@.len()
            + report.injected_regions@.len(),
{
    lemma_module_detections_len(report.modules@, report.modules@.len() as int);
    lemma_artifact_detections_len(report.exec_artifacts@, report.exec_artifacts@.len() as int);
}

} // verus!
