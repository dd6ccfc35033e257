//! Short labels for the frames of a call stack.

use crate::model::StackFrameInfo;
use crate::text::{
    chars_of, contains_any, dec_text, has_any, hex_text, lower, push_chars, push_dec, push_hex,
    push_str, slice_chars, string_of, table_of, to_lower, views, words,
};
use vstd::prelude::*;

verus! {

broadcast use vstd::string::group_string_axioms;

/// A character that parts the directories of a path.
pub open spec fn is_separator(c: char) -> bool {
    c == '\\' || c == '/'
}

/// Offset behind the last separator of `path`; zero when it has none.
pub open spec fn name_start(path: Seq<char>) -> int
    decreases path.len(),
{
    if path.len() == 0 {
        0
    } else if is_separator(path.last()) {
        path.len() as int
    } else {
        name_start(path.drop_last())
    }
}

/// What stands behind the last separator of a path; the whole path when
/// nothing stands there.
pub open spec fn compacted(path: Seq<char>) -> Seq<char> {
    if name_start(path) == path.len() {
        path
    } else {
        path.skip(name_start(path))
    }
}

proof fn lemma_name_start(path: Seq<char>, start: int)
    requires
        0 <= start <= path.len(),
        start == 0 || is_separator(path[start - 1]),
        forall|k: int| start <= k < path.len() ==> !is_separator(path[k]),
    ensures
        name_start(path) == start,
    decreases path.len(),
{
    if path.len() > start {
        lemma_name_start(path.drop_last(), start);
    }
}

fn compact_chars(path: &[char]) -> (r: Vec<char>)
    ensures
        r@ == compacted(path@),
{
    let mut start: usize = path.len();
    while start > 0 && !(path[start - 1] == '\\' || path[start - 1] == '/')
        invariant
            start <= path.len(),
            forall|k: int| start <= k < path.len() ==> !is_separator(path@[k]),
        decreases start,
    {
        start -= 1;
    }
    proof {
        lemma_name_start(path@, start as int);
    }
    if start == path.len() {
        let whole = slice_chars(path, 0, path.len());
        assert(whole@ =~= path@);
        whole
    } else {
        let name = slice_chars(path, start, path.len());
        assert(name@ =~= path@.skip(start as int));
        name
    }
}

pub fn compact_path(path: &str) -> (r: String)
    ensures
        r@ == compacted(path@),
{
    let cs = chars_of(path);
    let name = compact_chars(cs.as_slice());
    string_of(name.as_slice())
}

pub open spec fn module_label(frame: StackFrameInfo) -> Seq<char> {
    match frame.module {
        Some(m) => compacted(m@),
        None => "<unknown>"@,
    }
}

/// A frame in short: module and function, or module and offset, or module
/// and instruction, whichever is known first.
pub open spec fn frame_short_text(frame: StackFrameInfo) -> Seq<char> {
    match frame.function {
        Some(function) => module_label(frame) + "!"@ + function@,
        None => match frame.module_offset {
            Some(offset) => module_label(frame) + "+0x"@ + hex_text(offset as nat),
            None => module_label(frame) + "!0x"@ + hex_text(frame.instruction as nat),
        },
    }
}

pub fn stack_frame_short(frame: &StackFrameInfo) -> (r: String)
    ensures
        r@ == frame_short_text(*frame),
{
    let mut out: Vec<char> = match &frame.module {
        Some(m) => compact_chars(chars_of(m.as_str()).as_slice()),
        None => chars_of("<unknown>"),
    };
    assert(out@ == module_label(*frame));
    if let Some(function) = &frame.function {
        push_str(&mut out, "!");
        push_str(&mut out, function.as_str());
    } else if let Some(offset) = frame.module_offset {
        push_str(&mut out, "+0x");
        push_hex(&mut out, offset);
    } else {
        push_str(&mut out, "!0x");
        push_hex(&mut out, frame.instruction);
    }
    assert(out@ =~= frame_short_text(*frame));
    string_of(out.as_slice())
}

/// The function of a frame with the offset into it; without a function, the
/// offset into the module; without that, a dash.
pub open spec fn function_label_text(frame: StackFrameInfo) -> Seq<char> {
    match frame.function {
        Some(name) => match frame.function_offset {
            Some(off) => name@ + "+0x"@ + hex_text(off as nat),
            None => name@,
        },
        None => match frame.module_offset {
            Some(off) => "+0x"@ + hex_text(off as nat),
            None => "-"@,
        },
    }
}

pub fn stack_function_label(frame: &StackFrameInfo) -> (r: String)
    ensures
        r@ == function_label_text(*frame),
{
    let mut out: Vec<char> = Vec::new();
    if let Some(name) = &frame.function {
        push_str(&mut out, name.as_str());
        if let Some(off) = frame.function_offset {
            push_str(&mut out, "+0x");
            push_hex(&mut out, off);
        }
    } else if let Some(off) = frame.module_offset {
        push_str(&mut out, "+0x");
        push_hex(&mut out, off);
    } else {
        push_str(&mut out, "-");
    }
    assert(out@ =~= function_label_text(*frame));
    string_of(out.as_slice())
}

/// The source file of a frame, without its directories, and the line when
/// it is known; a dash without a file.
pub open spec fn source_label_text(frame: StackFrameInfo) -> Seq<char> {
    match frame.source_file {
        Some(file) => match frame.source_line {
            Some(line) => compacted(file@) + ":"@ + dec_text(line as nat),
            None => compacted(file@),
        },
        None => "-"@,
    }
}

pub fn stack_source_label(frame: &StackFrameInfo) -> (r: String)
    ensures
        r@ == source_label_text(*frame),
{
    let mut out: Vec<char> = Vec::new();
    if let Some(file) = &frame.source_file {
        let name = compact_chars(chars_of(file.as_str()).as_slice());
        push_chars(&mut out, name.as_slice());
        if let Some(line) = frame.source_line {
            push_str(&mut out, ":");
            push_dec(&mut out, line as u64);
        }
    } else {
        push_str(&mut out, "-");
    }
    assert(out@ =~= source_label_text(*frame));
    string_of(out.as_slice())
}

/// How the walk of a stack ended, as far as the viewer tells it apart.
#[derive(Clone, Copy, Debug, PartialEq, Eq, Structural)]
pub enum StackStatus {
    /// The walk came to a regular end.
    Walked,
    /// Something that the walk needed was missing or not supported.
    Hindered,
    Other,
}

/// The words for a walk that came to a regular end.
pub open spec fn walked_words() -> Seq<Seq<char>> {
    seq![
        "ok"@,
        "context"@,
        "prewalked"@,
        "cfi"@,
        "cfi_scan"@,
        "callframeinfo"@,
        "frame_pointer"@,
        "scan"@,
    ]
}

/// The marks of a walk that was hindered.
pub open spec fn hindered_marks() -> Seq<Seq<char>> {
    seq!["missing"@, "unsupported"@, "skipped"@]
}

/// The status is one of the words for a regular end, or else holds one of the
/// marks of a hindered walk, in any case of letters.
pub open spec fn status_of(status: Seq<char>) -> StackStatus {
    if walked_words().contains(lower(status)) {
        StackStatus::Walked
    } else if contains_any(lower(status), hindered_marks()) {
        StackStatus::Hindered
    } else {
        StackStatus::Other
    }
}

fn is_one_of(text: &[char], table: &Vec<Vec<char>>) -> (r: bool)
    ensures
        r == views(table@).contains(text@),
{
    let mut i: usize = 0;
    while i < table.len()
        invariant
            i <= table.len(),
            forall|k: int| 0 <= k < i ==> views(table@)[k] != text@,
        decreases table.len() - i,
    {
        let entry = &table[i];
        let mut same = entry.len() == text.len();
        let mut k: usize = 0;
        while same && k < text.len()
            invariant
                k <= text.len(),
                same ==> entry@.len() == text@.len(),
                same ==> forall|j: int| 0 <= j < k ==> entry@[j] == text@[j],
                !same ==> entry@ != text@,
            decreases text.len() - k,
        {
            if entry[k] != text[k] {
                same = false;
            }
            k += 1;
        }
        if same {
            assert(entry@ =~= text@);
            assert(views(table@)[i as int] == text@);
            return true;
        }
        i += 1;
    }
    false
}

pub fn stack_status(status: &str) -> (r: StackStatus)
    ensures
        r == status_of(status@),
{
    let s = to_lower(chars_of(status).as_slice());
    let walked = vec![
        "ok",
        "context",
        "prewalked",
        "cfi",
        "cfi_scan",
        "callframeinfo",
        "frame_pointer",
        "scan",
    ];
    assert(words(walked@) =~= walked_words());
    let hindered = vec!["missing", "unsupported", "skipped"];
    assert(words(hindered@) =~= hindered_marks());
    if is_one_of(s.as_slice(), &table_of(walked)) {
        StackStatus::Walked
    } else if has_any(s.as_slice(), &table_of(hindered)) {
        StackStatus::Hindered
    } else {
        StackStatus::Other
    }
}

} // verus!
