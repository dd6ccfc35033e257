//! The call stacks of a dump, as a stack walker found them, made into the
//! part of the report that shows them.

use crate::model::{StackFrameInfo, StackwalkReport, ThreadStackTrace};
use crate::text::{chars_of, text};
use vstd::prelude::*;

verus! {

broadcast use vstd::string::group_string_axioms;

/// The module that an instruction belongs to.
#[derive(Clone, Debug)]
pub struct WalkedModule {
    pub code_file: String,
    pub base_address: u64,
}

/// One frame of a call stack, as the stack walker found it.
#[derive(Clone, Debug)]
pub struct WalkedFrame {
    pub instruction: u64,
    pub module: Option<WalkedModule>,
    pub function_name: Option<String>,
    pub function_base: Option<u64>,
    pub source_file_name: Option<String>,
    pub source_line: Option<u32>,
    /// How the walker came to the frame.
    pub trust: String,
}

/// The call stack of one thread.
#[derive(Clone, Debug)]
pub struct WalkedThread {
    pub thread_id: u32,
    pub thread_name: Option<String>,
    /// How the walk of the thread ended.
    pub info: String,
    pub frames: Vec<WalkedFrame>,
}

/// What the stack walker found in a dump.
#[derive(Clone, Debug)]
pub struct WalkedProcess {
    /// Position among `threads` of the thread that asked for the dump.
    pub requesting_thread: Option<usize>,
    pub threads: Vec<WalkedThread>,
    /// For each module that was looked up, whether symbols were loaded.
    pub symbols_loaded: Vec<bool>,
}

/// How far `address` lies above `base`; zero when it lies below.
pub open spec fn distance(address: u64, base: u64) -> u64 {
    if address >= base {
        (address - base) as u64
    } else {
        0
    }
}

pub open spec fn offset_from(address: u64, base: Option<u64>) -> Option<u64> {
    match base {
        Some(b) => Some(distance(address, b)),
        None => None,
    }
}

/// `out` shows the frame `f`, which stands at `index` in its stack.
pub open spec fn frame_matches(out: StackFrameInfo, f: WalkedFrame, index: int) -> bool {
    &&& out.index == index
    &&& out.instruction == f.instruction
    &&& text(out.module) == match f.module {
        Some(m) => Some(m.code_file@),
        None => None,
    }
    &&& out.module_base == match f.module {
        Some(m) => Some(m.base_address),
        None => None,
    }
    &&& out.module_offset == offset_from(f.instruction, out.module_base)
    &&& text(out.function) == text(f.function_name)
    &&& out.function_offset == offset_from(f.instruction, f.function_base)
    &&& text(out.source_file) == text(f.source_file_name)
    &&& out.source_line == f.source_line
    &&& out.trust@ == f.trust@
}

pub open spec fn frames_match(out: Seq<StackFrameInfo>, frames: Seq<WalkedFrame>) -> bool {
    &&& out.len() == frames.len()
    &&& forall|i: int| 0 <= i < out.len() ==> frame_matches(#[trigger] out[i], frames[i], i)
}

/// `out` shows the stack of `t`, which stands at `index` among the threads.
pub open spec fn thread_matches(
    out: ThreadStackTrace,
    t: WalkedThread,
    index: int,
    requesting: Option<usize>,
) -> bool {
    &&& out.thread_id == t.thread_id
    &&& text(out.thread_name) == text(t.thread_name)
    &&& out.status@ == t.info@
    &&& out.is_requesting_thread == (requesting == Some(index as usize))
    &&& frames_match(out.frames@, t.frames@)
}

pub open spec fn threads_match(
    out: Seq<ThreadStackTrace>,
    threads: Seq<WalkedThread>,
    requesting: Option<usize>,
) -> bool {
    &&& out.len() == threads.len()
    &&& forall|i: int|
        0 <= i < out.len() ==> thread_matches(#[trigger] out[i], threads[i], i, requesting)
}

/// Number of frames among the first `n` whose function is known by name.
pub open spec fn named_frames(frames: Seq<WalkedFrame>, n: int) -> nat
    decreases n,
{
    if n <= 0 {
        0
    } else {
        named_frames(frames, n - 1) + if frames[n - 1].function_name is Some {
            1nat
        } else {
            0nat
        }
    }
}

/// Number of such frames in the first `n` threads.
pub open spec fn named_frames_in(threads: Seq<WalkedThread>, n: int) -> nat
    decreases n,
{
    if n <= 0 {
        0
    } else {
        named_frames_in(threads, n - 1) + named_frames(
            threads[n - 1].frames@,
            threads[n - 1].frames@.len() as int,
        )
    }
}

/// Number of modules among the first `n` for which symbols were loaded.
pub open spec fn loaded_count(flags: Seq<bool>, n: int) -> nat
    decreases n,
{
    if n <= 0 {
        0
    } else {
        loaded_count(flags, n - 1) + if flags[n - 1] {
            1nat
        } else {
            0nat
        }
    }
}

pub open spec fn no_paths_note() -> Seq<char> {
    "No symbol paths configured. Set LOG_ATLAS_SYMBOL_PATH or MINIDUMP_SYMBOL_PATH for Breakpad .sym lookup."@
}

pub open spec fn no_symbols_note() -> Seq<char> {
    "No symbol files were loaded; frames may only have module + offset information."@
}

/// What is said about the walk: that no directory was searched, and that no
/// symbols were found, where that is so.
pub open spec fn walk_notes(no_paths: bool, no_symbols: bool) -> Seq<Seq<char>> {
    (if no_paths {
        seq![no_paths_note()]
    } else {
        Seq::empty()
    }) + (if no_symbols {
        seq![no_symbols_note()]
    } else {
        Seq::empty()
    })
}

/// The thread that asked for the dump, if the walker names one of the threads.
pub open spec fn requesting_id(requesting: Option<usize>, threads: Seq<WalkedThread>) -> Option<u32> {
    match requesting {
        Some(i) => if i < threads.len() {
            Some(threads[i as int].thread_id)
        } else {
            None
        },
        None => None,
    }
}

proof fn lemma_named_frames_bounded(frames: Seq<WalkedFrame>, n: int)
    requires
        0 <= n,
    ensures
        named_frames(frames, n) <= n,
    decreases n,
{
    if n > 0 {
        lemma_named_frames_bounded(frames, n - 1);
    }
}

proof fn lemma_loaded_count_bounded(flags: Seq<bool>, n: int)
    requires
        0 <= n,
    ensures
        loaded_count(flags, n) <= n,
    decreases n,
{
    if n > 0 {
        lemma_loaded_count_bounded(flags, n - 1);
    }
}

proof fn lemma_named_frames_in_grows(threads: Seq<WalkedThread>, i: int, n: int)
    requires
        0 <= i <= n,
    ensures
        named_frames_in(threads, i) <= named_frames_in(threads, n),
    decreases n - i,
{
    if i < n {
        lemma_named_frames_in_grows(threads, i, n - 1);
    }
}

fn saturating_distance(address: u64, base: u64) -> (r: u64)
    ensures
        r == distance(address, base),
{
    if address >= base {
        address - base
    } else {
        0
    }
}

/// The frame as the report shows it.
pub fn show_frame(f: WalkedFrame, index: usize) -> (out: StackFrameInfo)
    ensures
        frame_matches(out, f, index as int),
{
    let (module, module_base) = match f.module {
        Some(m) => (Some(m.code_file), Some(m.base_address)),
        None => (None, None),
    };
    let module_offset = match module_base {
        Some(base) => Some(saturating_distance(f.instruction, base)),
        None => None,
    };
    let function_offset = match f.function_base {
        Some(base) => Some(saturating_distance(f.instruction, base)),
        None => None,
    };
    StackFrameInfo {
        index,
        instruction: f.instruction,
        module,
        module_base,
        module_offset,
        function: f.function_name,
        function_offset,
        source_file: f.source_file_name,
        source_line: f.source_line,
        trust: f.trust,
    }
}

/// The stack of a thread as the report shows it, and the number of its
/// frames whose function is known by name.
pub fn show_thread(t: WalkedThread, index: usize, requesting: Option<usize>) -> (r: (
    ThreadStackTrace,
    usize,
))
    ensures
        thread_matches(r.0, t, index as int, requesting),
        r.1 == named_frames(t.frames@, t.frames@.len() as int),
{
    let ghost all = t.frames@;
    assert(all.len() == t.frames.len());
    let mut frames: Vec<StackFrameInfo> = Vec::new();
    let mut named: usize = 0;
    for f in it: t.frames
        invariant
            it.seq() == all,
            all.len() <= usize::MAX,
            frames@.len() == it.index(),
            forall|k: int| 0 <= k < it.index() ==> frame_matches(#[trigger] frames@[k], all[k], k),
            named == named_frames(all, it.index()),
    {
        proof {
            lemma_named_frames_bounded(all, it.index());
        }
        if f.function_name.is_some() {
            named = named + 1;
        }
        let shown = show_frame(f, frames.len());
        frames.push(shown);
    }
    let is_requesting_thread = match requesting {
        Some(i) => i == index,
        None => false,
    };
    (
        ThreadStackTrace {
            thread_id: t.thread_id,
            thread_name: t.thread_name,
            status: t.info,
            is_requesting_thread,
            frames,
        },
        named,
    )
}

fn count_loaded(flags: &Vec<bool>) -> (n: usize)
    ensures
        n == loaded_count(flags@, flags@.len() as int),
{
    let mut n: usize = 0;
    let mut i: usize = 0;
    while i < flags.len()
        invariant
            i <= flags.len(),
            n == loaded_count(flags@, i as int),
        decreases flags.len() - i,
    {
        proof {
            lemma_loaded_count_bounded(flags@, i as int);
        }
        if flags[i] {
            n = n + 1;
        }
        i += 1;
    }
    n
}

/// `r` is the report of what the walker found, with the directories that
/// were searched: it names the thread that asked for the dump, shows every
/// thread, counts the frames whose function is known by name and the
/// modules with symbols, and says so when no directory was searched or no
/// symbols were found.
pub open spec fn reports_walk(r: StackwalkReport, state: WalkedProcess, symbol_paths: Seq<String>) -> bool {
    &&& r.requesting_thread_id == requesting_id(state.requesting_thread, state.threads@)
    &&& r.symbol_paths@ == symbol_paths
    &&& r.symbolicated_frames == named_frames_in(state.threads@, state.threads@.len() as int)
    &&& r.modules_with_symbols == loaded_count(
        state.symbols_loaded@,
        state.symbols_loaded@.len() as int,
    )
    &&& r.notes.deep_view() == walk_notes(
        symbol_paths.len() == 0,
        loaded_count(state.symbols_loaded@, state.symbols_loaded@.len() as int) == 0,
    )
    &&& threads_match(r.threads@, state.threads@, state.requesting_thread)
}

/// The report of a stack walk.
///
/// Every thread and every frame is shown in the order in which the walker
/// found it; an offset is the distance of the instruction above the base of
/// its module or function.  The report counts the frames whose function is
/// known by name and the modules with symbols, and says so when no directory
/// was searched or no symbols were found.
pub fn from_process_state(state: WalkedProcess, symbol_paths: Vec<String>) -> (r: StackwalkReport)
    requires
        named_frames_in(state.threads@, state.threads@.len() as int) <= usize::MAX,
    ensures
        reports_walk(r, state, symbol_paths@),
{
    let requesting = state.requesting_thread;
    let requesting_thread_id = match requesting {
        Some(i) => if i < state.threads.len() {
            Some(state.threads[i].thread_id)
        } else {
            None
        },
        None => None,
    };
    let modules_with_symbols = count_loaded(&state.symbols_loaded);
    let ghost all = state.threads@;
    let mut symbolicated_frames: usize = 0;
    let mut threads: Vec<ThreadStackTrace> = Vec::new();
    for t in it: state.threads
        invariant
            it.seq() == all,
            threads@.len() == it.index(),
            named_frames_in(all, all.len() as int) <= usize::MAX,
            forall|k: int|
                0 <= k < it.index() ==> thread_matches(#[trigger] threads@[k], all[k], k, requesting),
            symbolicated_frames == named_frames_in(all, it.index()),
    {
        proof {
            lemma_named_frames_in_grows(all, it.index() + 1, all.len() as int);
        }
        let (shown, named) = show_thread(t, threads.len(), requesting);
        symbolicated_frames = symbolicated_frames + named;
        threads.push(shown);
    }
    let mut notes: Vec<String> = Vec::new();
    if symbol_paths.len() == 0 {
        notes.push(
            "No symbol paths configured. Set LOG_ATLAS_SYMBOL_PATH or MINIDUMP_SYMBOL_PATH for Breakpad .sym lookup.".to_owned(),
        );
    }
    if modules_with_symbols == 0 {
        notes.push(
            "No symbol files were loaded; frames may only have module + offset information.".to_owned(),
        );
    }
    assert(notes.deep_view() =~= walk_notes(symbol_paths@.len() == 0, modules_with_symbols == 0));
    StackwalkReport {
        requesting_thread_id,
        symbol_paths,
        symbolicated_frames,
        modules_with_symbols,
        notes,
        threads,
    }
}

fn count_named(frames: &Vec<WalkedFrame>) -> (n: usize)
    ensures
        n == named_frames(frames@, frames@.len() as int),
{
    let mut n: usize = 0;
    let mut i: usize = 0;
    while i < frames.len()
        invariant
            i <= frames.len(),
            n == named_frames(frames@, i as int),
        decreases frames.len() - i,
    {
        proof {
            lemma_named_frames_bounded(frames@, i as int);
        }
        if frames[i].function_name.is_some() {
            n = n + 1;
        }
        i += 1;
    }
    n
}

/// Whether the frames whose function is known by name can be counted.
pub fn named_frames_fit(state: &WalkedProcess) -> (r: bool)
    ensures
        r == (named_frames_in(state.threads@, state.threads@.len() as int) <= usize::MAX),
{
    let mut total: usize = 0;
    let mut i: usize = 0;
    while i < state.threads.len()
        invariant
            i <= state.threads.len(),
            total == named_frames_in(state.threads@, i as int),
        decreases state.threads.len() - i,
    {
        let named = count_named(&state.threads[i].frames);
        match total.checked_add(named) {
            Some(sum) => {
                total = sum;
            },
            None => {
                proof {
                    lemma_named_frames_in_grows(
                        state.threads@,
                        i + 1,
                        state.threads@.len() as int,
                    );
                }
                return false;
            },
        }
        i += 1;
    }
    true
}

/// [`from_process_state`], for a walk of any size: nothing is reported of a
/// walk with more named frames than can be counted.
pub fn try_from_process_state(state: WalkedProcess, symbol_paths: Vec<String>) -> (r: Option<
    StackwalkReport,
>)
    ensures
        r is Some <==> named_frames_in(state.threads@, state.threads@.len() as int) <= usize::MAX,
        r matches Some(report) ==> reports_walk(report, state, symbol_paths@),
{
    if named_frames_fit(&state) {
        Some(from_process_state(state, symbol_paths))
    } else {
        None
    }
}

/// What stands for the local directory `symbols`, which is searched for
/// symbol files when it exists.
pub open spec fn local_symbols_dir() -> Seq<u8> {
    bytes_of("symbols"@)
}

/// The bytes that stand for a text of plain characters, one for each.
pub open spec fn bytes_of(text: Seq<char>) -> Seq<u8> {
    Seq::new(text.len(), |i: int| text[i] as u8)
}

fn local_symbols_path() -> (path: Vec<u8>)
    ensures
        path@ == local_symbols_dir(),
{
    let name = chars_of("symbols");
    let mut path: Vec<u8> = Vec::new();
    let mut i: usize = 0;
    while i < name.len()
        invariant
            i <= name.len(),
            path@.len() == i,
            forall|k: int| 0 <= k < i ==> path@[k] == name@[k] as u8,
        decreases name.len() - i,
    {
        path.push(name[i] as u8);
        i += 1;
    }
    assert(path@ =~= bytes_of(name@));
    path
}

/// The bytes of each path, in order.
pub open spec fn path_bytes(paths: Seq<Vec<u8>>) -> Seq<Seq<u8>> {
    Seq::new(paths.len(), |i: int| paths[i]@)
}

/// The path at `i` is not empty, and none before it is the same path.
pub open spec fn first_of_its_path(paths: Seq<Seq<u8>>, i: int) -> bool {
    paths[i].len() > 0 && forall|j: int| 0 <= j < i ==> paths[j] != paths[i]
}

/// Positions among the first `n` paths of those that are searched: the
/// empty ones are left out, and of equal paths all but the first.
pub open spec fn searched_among(paths: Seq<Seq<u8>>, n: int) -> Seq<usize>
    decreases n,
{
    if n <= 0 {
        Seq::empty()
    } else if first_of_its_path(paths, n - 1) {
        searched_among(paths, n - 1).push((n - 1) as usize)
    } else {
        searched_among(paths, n - 1)
    }
}

/// Positions of the directories that are searched for symbol files: the
/// paths that the configuration names, each once, in the order in which they
/// first occur; and after them the local directory, for which the position
/// after the last path stands, when it exists and is not among the paths.
pub open spec fn searched_positions(paths: Seq<Seq<u8>>, local_dir_exists: bool) -> Seq<usize> {
    let found = searched_among(paths, paths.len() as int);
    if local_dir_exists && !paths.contains(local_symbols_dir()) {
        found.push(paths.len() as usize)
    } else {
        found
    }
}

fn same_path(a: &Vec<u8>, b: &Vec<u8>) -> (r: bool)
    ensures
        r == (a@ == b@),
{
    if a.len() != b.len() {
        return false;
    }
    let mut i: usize = 0;
    while i < a.len()
        invariant
            i <= a.len(),
            a@.len() == b@.len(),
            forall|k: int| 0 <= k < i ==> a@[k] == b@[k],
        decreases a.len() - i,
    {
        if a[i] != b[i] {
            return false;
        }
        i += 1;
    }
    assert(a@ =~= b@);
    true
}

/// Whether `path` is one of the first `n` paths.
fn path_among(paths: &Vec<Vec<u8>>, n: usize, path: &Vec<u8>) -> (r: bool)
    requires
        n <= paths@.len(),
    ensures
        r == exists|j: int| 0 <= j < n && (#[trigger] paths@[j])@ == path@,
{
    let mut j: usize = 0;
    while j < n
        invariant
            j <= n <= paths@.len(),
            forall|k: int| 0 <= k < j ==> (#[trigger] paths@[k])@ != path@,
        decreases n - j,
    {
        if same_path(&paths[j], path) {
            return true;
        }
        j += 1;
    }
    false
}

/// The directories in which symbol files are looked for, by position.
/// `paths` holds the paths that the configuration names, in its order, each
/// as the bytes that stand for it: two paths are the same exactly when
/// their bytes are.
pub fn discover_symbol_paths(paths: &Vec<Vec<u8>>, local_dir_exists: bool) -> (kept: Vec<usize>)
    ensures
        kept@ == searched_positions(path_bytes(paths@), local_dir_exists),
{
    let ghost all = path_bytes(paths@);
    let mut kept: Vec<usize> = Vec::new();
    let mut i: usize = 0;
    while i < paths.len()
        invariant
            i <= paths.len(),
            all == path_bytes(paths@),
            kept@ == searched_among(all, i as int),
        decreases paths.len() - i,
    {
        let again = path_among(paths, i, &paths[i]);
        proof {
            assert(all[i as int] == paths@[i as int]@);
            if again {
                let j = choose|j: int| 0 <= j < i && (#[trigger] paths@[j])@ == paths@[i as int]@;
                assert(all[j] == all[i as int]);
            } else {
                assert forall|j: int| 0 <= j < i implies all[j] != all[i as int] by {
                    assert(paths@[j]@ != paths@[i as int]@);
                }
            }
        }
        if paths[i].len() > 0 && !again {
            kept.push(i);
        }
        i += 1;
    }
    if local_dir_exists {
        let local = local_symbols_path();
        let named = path_among(paths, paths.len(), &local);
        proof {
            if named {
                let j = choose|j: int|
                    0 <= j < paths@.len() && (#[trigger] paths@[j])@ == local@;
                assert(all[j] == local_symbols_dir());
            } else {
                assert forall|j: int| 0 <= j < all.len() implies all[j]
                    != local_symbols_dir() by {
                    assert(paths@[j]@ != local@);
                }
            }
        }
        if !named {
            kept.push(paths.len());
        }
    }
    kept
}

/// No directory is searched twice, and none that has no name: the
/// positions stand for paths that differ from each other and are not empty.
pub proof fn lemma_searched_once(paths: Seq<Seq<u8>>, n: int)
    requires
        0 <= n <= paths.len() <= usize::MAX,
    ensures
        forall|k: int|
            0 <= k < searched_among(paths, n).len() ==> 0 <= #[trigger] searched_among(paths, n)[k]
                < n && first_of_its_path(paths, searched_among(paths, n)[k] as int),
        forall|a: int, b: int|
            0 <= a < b < searched_among(paths, n).len() ==> #[trigger] searched_among(paths, n)[a]
                < #[trigger] searched_among(paths, n)[b],
        forall|i: int|
            0 <= i < n && first_of_its_path(paths, i) ==> searched_among(paths, n).contains(
                i as usize,
            ),
    decreases n,
{
    if n > 0 {
        lemma_searched_once(paths, n - 1);
        let before = searched_among(paths, n - 1);
        let now = searched_among(paths, n);
        assert forall|i: int| 0 <= i < n && first_of_its_path(paths, i) implies now.contains(
            i as usize,
        ) by {
            if i < n - 1 {
                let k = choose|k: int| 0 <= k < before.len() && before[k] == i as usize;
                assert(now[k] == i as usize);
            } else {
                assert(now[now.len() - 1] == i as usize);
            }
        }
    }
}

} // verus!
