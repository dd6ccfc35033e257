//! Recovery of command lines from the raw memory of a dump.
//!
//! A dump of one process holds no list of the programs that it started.  What
//! can be had are strings in its memory that look like command lines; they are
//! searched for in two encodings, within fixed limits.

use crate::model::minidump_report::ProcessExecArtifactView;
use crate::model::{ExecArtifactEncoding, ProcessExecArtifact};
use crate::text::{
    chars_of, contains_any, has_any, is_space, is_whitespace, lemma_space_counts_bounded,
    lemma_trim_bounds_exist, lemma_trim_is_subrange, lower, lower_char, slice_chars, string_of,
    table_of, to_lower, to_lower_char, trim, trim_bounds, trim_start, trimmed, trims_to, views,
    words,
};
use vstd::prelude::*;

verus! {

broadcast use vstd::string::group_string_axioms;

/// No more than this many bytes of memory are inspected.
pub const MAX_SCAN_BYTES: usize = 33_554_432;

/// No more than this many command lines are recovered.
pub const MAX_ARTIFACTS: usize = 200;

/// Shortest run of characters that can hold a command line.
pub const MIN_RUN: usize = 12;

/// Longest run of characters that can hold a command line.
pub const MAX_RUN: usize = 800;

/// A tab, or an ASCII character from the space to the tilde.
pub open spec fn printable(b: u8) -> bool {
    b == 0x09 || (0x20 <= b && b <= 0x7E)
}

/// Whether the byte is a tab or a printable ASCII character.
pub fn is_ascii_printable(b: u8) -> (r: bool)
    ensures
        r == printable(b),
{
    b == 0x09 || (0x20 <= b && b <= 0x7E)
}

/// Endings of executable files and names of interpreters and tools, one of
/// which a command line must hold.
pub open spec fn indicator_tokens() -> Seq<Seq<char>> {
    seq![
        ".exe"@,
        ".bat"@,
        ".cmd"@,
        ".ps1"@,
        ".vbs"@,
        ".js"@,
        ".jar"@,
        ".msi"@,
        "powershell"@,
        "pwsh"@,
        "cmd.exe"@,
        "wscript"@,
        "cscript"@,
        "mshta"@,
        "rundll32"@,
        "regsvr32"@,
        "schtasks"@,
        "wmic"@,
        "certutil"@,
        "bitsadmin"@,
        "curl "@,
        "wget "@,
        "msbuild"@,
        "installutil"@,
        "python"@,
        "node "@,
        "dotnet"@,
        "java "@,
        "bash"@,
        "/bin/sh"@,
    ]
}

/// The table of [`indicator_tokens`].
pub fn indicator_table() -> (r: Vec<Vec<char>>)
    ensures
        views(r@) == indicator_tokens(),
{
    let list = vec![
        ".exe",
        ".bat",
        ".cmd",
        ".ps1",
        ".vbs",
        ".js",
        ".jar",
        ".msi",
        "powershell",
        "pwsh",
        "cmd.exe",
        "wscript",
        "cscript",
        "mshta",
        "rundll32",
        "regsvr32",
        "schtasks",
        "wmic",
        "certutil",
        "bitsadmin",
        "curl ",
        "wget ",
        "msbuild",
        "installutil",
        "python",
        "node ",
        "dotnet",
        "java ",
        "bash",
        "/bin/sh",
    ];
    assert(words(list@) =~= indicator_tokens());
    table_of(list)
}

/// Every character is ASCII and none is a control character.
pub open spec fn clean(s: Seq<char>) -> bool {
    forall|i: int| 0 <= i < s.len() ==> 0x20 <= (#[trigger] s[i]) as u32 <= 0x7E
}

/// The text has the length of a command line, holds an indicator in any case
/// of letters, and is clean.
pub open spec fn likely_command_line(s: Seq<char>) -> bool {
    &&& MIN_RUN <= s.len() <= MAX_RUN
    &&& contains_any(lower(s), indicator_tokens())
    &&& clean(s)
}

fn is_clean(cs: &[char]) -> (r: bool)
    ensures
        r == clean(cs@),
{
    let mut i: usize = 0;
    while i < cs.len()
        invariant
            i <= cs.len(),
            forall|k: int| 0 <= k < i ==> 0x20 <= (#[trigger] cs@[k]) as u32 <= 0x7E,
        decreases cs.len() - i,
    {
        let n: u32 = cs[i] as u32;
        if n < 0x20 || n > 0x7E {
            return false;
        }
        i += 1;
    }
    true
}

/// [`is_likely_command_line`] on a character buffer, with the table at hand.
pub fn is_likely_text(cs: &[char], indicators: &Vec<Vec<char>>) -> (r: bool)
    requires
        views(indicators@) == indicator_tokens(),
    ensures
        r == likely_command_line(cs@),
{
    if cs.len() < MIN_RUN || cs.len() > MAX_RUN {
        return false;
    }
    let lowered = to_lower(cs);
    if !has_any(lowered.as_slice(), indicators) {
        return false;
    }
    is_clean(cs)
}

/// Whether the text looks like a command line: whether it has the length
/// of one, names an executable, a script or an interpreter, and holds only
/// ASCII characters none of which is a control character.
pub fn is_likely_command_line(s: &str) -> (r: bool)
    ensures
        r == likely_command_line(s@),
{
    let cs = chars_of(s);
    let indicators = indicator_table();
    is_likely_text(cs.as_slice(), &indicators)
}

/// Offset of the first character of `s` that fulfils `wanted`, or the length
/// of `s` when none does.
pub open spec fn first_where(s: Seq<char>, wanted: spec_fn(char) -> bool) -> int
    decreases s.len(),
{
    if s.len() == 0 || wanted(s[0]) {
        0
    } else {
        1 + first_where(s.drop_first(), wanted)
    }
}

pub proof fn lemma_first_where(s: Seq<char>, wanted: spec_fn(char) -> bool, n: int)
    requires
        0 <= n <= s.len(),
        forall|k: int| 0 <= k < n ==> !wanted(s[k]),
        n == s.len() || wanted(s[n]),
    ensures
        first_where(s, wanted) == n,
    decreases n,
{
    if n > 0 {
        lemma_first_where(s.drop_first(), wanted, n - 1);
    }
}

/// The executable or script that a command line names: what stands between
/// the quotes when the line starts with a quoted part, else what stands before
/// the first white space; in both cases without white space around it.
pub open spec fn image_of(command_line: Seq<char>) -> Seq<char> {
    let s = trim_start(command_line);
    if s.len() == 0 {
        Seq::empty()
    } else {
        let rest = s.skip(1);
        let close = first_where(rest, |c: char| c == '"');
        if s[0] == '"' && close < rest.len() {
            trim(rest.take(close))
        } else {
            trim(s.take(first_where(s, |c: char| is_space(c))))
        }
    }
}

/// The image without white space around it.
pub fn normalize_image(img: &[char]) -> (r: Vec<char>)
    ensures
        r@ == trim(img@),
{
    trimmed(img)
}

/// [`parse_image`] on a character buffer.
pub fn image_in(cs: &[char]) -> (r: Vec<char>)
    ensures
        r@ == image_of(cs@),
{
    let (from, _to) = trim_bounds(cs);
    proof {
        lemma_space_counts_bounded(cs@);
    }
    let ghost s = trim_start(cs@);
    assert(s =~= cs@.skip(from as int));
    if from == cs.len() {
        return Vec::new();
    }
    if cs[from] == '"' {
        let ghost rest = s.skip(1);
        let mut end: usize = from + 1;
        while end < cs.len() && cs[end] != '"'
            invariant
                from < end <= cs.len(),
                forall|k: int| from < k < end ==> cs@[k] != '"',
            decreases cs.len() - end,
        {
            end += 1;
        }
        proof {
            let wanted = |c: char| c == '"';
            assert forall|k: int| 0 <= k < end - from - 1 implies !wanted(rest[k]) by {
                assert(rest[k] == cs@[k + from + 1]);
            }
            if end < cs.len() {
                assert(rest[end - from - 1] == cs@[end as int]);
            }
            lemma_first_where(rest, wanted, end - from - 1);
        }
        if end < cs.len() {
            let inner = slice_chars(cs, from + 1, end);
            assert(inner@ =~= rest.take(end - from - 1));
            return normalize_image(inner.as_slice());
        }
    }
    let mut end: usize = from;
    while end < cs.len() && !is_whitespace(cs[end])
        invariant
            from <= end <= cs.len(),
            forall|k: int| from <= k < end ==> !is_space(cs@[k]),
        decreases cs.len() - end,
    {
        end += 1;
    }
    proof {
        let wanted = |c: char| is_space(c);
        assert forall|k: int| 0 <= k < end - from implies !wanted(s[k]) by {
            assert(s[k] == cs@[k + from]);
        }
        if end < cs.len() {
            assert(s[end - from] == cs@[end as int]);
        }
        lemma_first_where(s, wanted, end - from);
    }
    let token = slice_chars(cs, from, end);
    assert(token@ =~= s.take(end - from));
    normalize_image(token.as_slice())
}

/// The executable or script that a command line names.
pub fn parse_image(command_line: &str) -> (r: String)
    ensures
        r@ == image_of(command_line@),
{
    let cs = chars_of(command_line);
    let image = image_in(cs.as_slice());
    string_of(image.as_slice())
}

/// `s` with every run of white space replaced by one space and every ASCII
/// capital letter by its lower-case letter.
pub open spec fn collapsed(s: Seq<char>) -> Seq<char>
    decreases s.len(),
{
    if s.len() == 0 {
        Seq::empty()
    } else if !is_space(s.last()) {
        collapsed(s.drop_last()).push(lower_char(s.last()))
    } else if s.len() >= 2 && is_space(s[s.len() - 2]) {
        collapsed(s.drop_last())
    } else {
        collapsed(s.drop_last()).push(' ')
    }
}

/// The key under which a command line is known: two command lines that
/// differ only in the case of letters or in the amount of white space have
/// the same key.
pub open spec fn command_key(s: Seq<char>) -> Seq<char> {
    collapsed(trim(s))
}

/// [`normalize_cmd_key`] on a character buffer.
pub fn key_of_text(cs: &[char]) -> (r: Vec<char>)
    ensures
        r@ == command_key(cs@),
{
    let (from, to) = trim_bounds(cs);
    let ghost t = trim(cs@);
    let mut out: Vec<char> = Vec::new();
    let mut last_ws = false;
    let mut i: usize = from;
    while i < to
        invariant
            from <= i <= to <= cs.len(),
            t == cs@.subrange(from as int, to as int),
            out@ == collapsed(t.take(i - from)),
            last_ws == (i > from && is_space(cs@[i - 1])),
        decreases to - i,
    {
        let ch = cs[i];
        let ws = is_whitespace(ch);
        proof {
            let next = t.take(i + 1 - from);
            assert(next.drop_last() =~= t.take(i - from));
            assert(next.last() == ch);
            if i > from {
                assert(next[next.len() - 2] == cs@[i - 1]);
            }
        }
        if ws {
            if !last_ws {
                out.push(' ');
            }
        } else {
            out.push(to_lower_char(ch));
        }
        last_ws = ws;
        i += 1;
    }
    assert(t.take(to - from) =~= t);
    out
}

/// The key of a command line: without white space around it, with one space
/// for every run of white space, and in lower case.
pub fn normalize_cmd_key(s: &str) -> (r: String)
    ensures
        r@ == command_key(s@),
{
    let cs = chars_of(s);
    let key = key_of_text(cs.as_slice());
    string_of(key.as_slice())
}

/// The key of a recovered command line.
pub open spec fn key_of(a: ProcessExecArtifactView) -> Seq<char> {
    command_key(a.command_line)
}

/// No earlier item of `s` has the key of the item at `i`.
pub open spec fn first_of_its_key(s: Seq<ProcessExecArtifactView>, i: int) -> bool {
    forall|j: int| 0 <= j < i ==> key_of(#[trigger] s[j]) != key_of(s[i])
}

/// Those of the first `n` items of `s` that are the first of their key, in
/// the order of `s`.
pub open spec fn deduplicated(s: Seq<ProcessExecArtifactView>, n: int) -> Seq<
    ProcessExecArtifactView,
>
    decreases n,
{
    if n <= 0 {
        Seq::empty()
    } else if first_of_its_key(s, n - 1) {
        deduplicated(s, n - 1).push(s[n - 1])
    } else {
        deduplicated(s, n - 1)
    }
}

/// `s`, cut after [`MAX_ARTIFACTS`] items when it is longer.
pub open spec fn capped(s: Seq<ProcessExecArtifactView>) -> Seq<ProcessExecArtifactView> {
    if s.len() > MAX_ARTIFACTS {
        s.take(MAX_ARTIFACTS as int)
    } else {
        s
    }
}

pub proof fn lemma_deduplicated_is_shorter(s: Seq<ProcessExecArtifactView>, n: int)
    requires
        0 <= n,
    ensures
        deduplicated(s, n).len() <= n,
    decreases n,
{
    if n > 0 {
        lemma_deduplicated_is_shorter(s, n - 1);
    }
}

/// One of the first `n` items of `s` has the key `key`.
pub open spec fn key_among(s: Seq<ProcessExecArtifactView>, n: int, key: Seq<char>) -> bool {
    exists|j: int| 0 <= j < n && key_of(#[trigger] s[j]) == key
}

/// Keeps, of the command lines with one key, the first; of what is left, the
/// first [`MAX_ARTIFACTS`].
pub fn dedup_artifacts(artifacts: Vec<ProcessExecArtifact>) -> (out: Vec<ProcessExecArtifact>)
    ensures
        out.deep_view() == capped(
            deduplicated(artifacts.deep_view(), artifacts.deep_view().len() as int),
        ),
{
    let ghost all = artifacts.deep_view();
    let ghost items = artifacts@;
    let mut seen = vstd::hash_set::StringHashSet::new();
    let mut out: Vec<ProcessExecArtifact> = Vec::new();
    for a in it: artifacts
        invariant
            it.seq() == items,
            all == items.map_values(|x: ProcessExecArtifact| x.deep_view()),
            out.deep_view() == deduplicated(all, it.index()),
            forall|key: Seq<char>| seen@.contains(key) <==> key_among(all, it.index(), key),
    {
        let ghost i = it.index();
        let ghost before = out.deep_view();
        let ghost seen_before = seen@;
        assert(all[i] == a.deep_view());
        let key = normalize_cmd_key(a.command_line.as_str());
        if !seen.contains(key.as_str()) {
            assert(first_of_its_key(all, i)) by {
                assert forall|j: int| 0 <= j < i implies key_of(#[trigger] all[j]) != key_of(
                    all[i],
                ) by {
                    if key_of(all[j]) == key_of(all[i]) {
                        assert(key_among(all, i, key_of(all[i])));
                    }
                }
            }
            seen.insert(key);
            out.push(a);
            assert(out.deep_view() =~= before.push(all[i]));
        } else {
            assert(!first_of_its_key(all, i)) by {
                assert(key_among(all, i, key_of(all[i])));
                let j = choose|j: int| 0 <= j < i && key_of(#[trigger] all[j]) == key_of(all[i]);
                assert(key_of(all[j]) == key_of(all[i]));
            }
        }
        assert forall|k: Seq<char>| seen@.contains(k) <==> key_among(all, i + 1, k) by {
            if key_among(all, i + 1, k) {
                let j = choose|j: int| 0 <= j < i + 1 && key_of(#[trigger] all[j]) == k;
                if j < i {
                    assert(key_among(all, i, k));
                }
            }
            if seen_before.contains(k) {
                assert(key_among(all, i, k));
                let j = choose|j: int| 0 <= j < i && key_of(#[trigger] all[j]) == k;
                assert(key_of(all[j]) == k);
            }
            if k == key_of(all[i]) {
                assert(key_of(all[i]) == k);
            }
        }
    }
    assert(out.deep_view() == deduplicated(all, all.len() as int));
    let ghost full = out.deep_view();
    if out.len() > MAX_ARTIFACTS {
        out.truncate(MAX_ARTIFACTS);
        assert(out.deep_view() =~= full.take(MAX_ARTIFACTS as int));
    }
    out
}

/// One region of the raw memory of a dump.
#[derive(Clone, Debug)]
pub struct MemoryRegion {
    /// Address of the first byte.
    pub base_address: u64,
    pub bytes: Vec<u8>,
}

/// The characters that the bytes stand for, one for each byte.
pub open spec fn text_of(bytes: Seq<u8>) -> Seq<char> {
    Seq::new(bytes.len(), |i: int| bytes[i] as char)
}

/// What a run of characters at `address` yields: the command line that is
/// left when the white space around the run is taken away, if the run has
/// the length of a command line and what is left looks like one.
pub open spec fn candidate(run: Seq<char>, encoding: ExecArtifactEncoding, address: u64) -> Seq<
    ProcessExecArtifactView,
> {
    let text = trim(run);
    if MIN_RUN <= run.len() <= MAX_RUN && likely_command_line(text) {
        seq![
            ProcessExecArtifactView {
                image: image_of(text),
                command_line: text,
                encoding,
                address: Some(address),
            },
        ]
    } else {
        Seq::empty()
    }
}

/// A run of printable bytes begins at `i`: the byte before it, if there is
/// one, is not printable.
pub open spec fn ascii_run_at(bytes: Seq<u8>, i: int) -> bool {
    &&& 0 <= i < bytes.len()
    &&& printable(bytes[i])
    &&& (i == 0 || !printable(bytes[i - 1]))
}

/// Number of printable bytes in a row from `i` on.
pub open spec fn ascii_run_len(bytes: Seq<u8>, i: int) -> nat
    decreases bytes.len() - i,
{
    if 0 <= i < bytes.len() && printable(bytes[i]) {
        1 + ascii_run_len(bytes, i + 1)
    } else {
        0
    }
}

/// What the run that begins at `i` yields, if one begins there.
pub open spec fn ascii_hit_at(bytes: Seq<u8>, base: u64, i: int) -> Seq<ProcessExecArtifactView> {
    if ascii_run_at(bytes, i) {
        candidate(
            text_of(bytes.subrange(i, i + ascii_run_len(bytes, i))),
            ExecArtifactEncoding::Ascii,
            base.wrapping_add(i as u64),
        )
    } else {
        Seq::empty()
    }
}

/// What the runs of printable bytes yield that begin at `from` or later, in
/// the order of their addresses.  The address of a run wraps at the end of
/// the address space.
pub open spec fn ascii_hits(bytes: Seq<u8>, base: u64, from: int) -> Seq<ProcessExecArtifactView>
    decreases bytes.len() - from,
{
    if from < 0 || from >= bytes.len() {
        Seq::empty()
    } else {
        ascii_hit_at(bytes, base, from) + ascii_hits(bytes, base, from + 1)
    }
}

/// A printable byte followed by a zero byte stands at `i`: one character of
/// ASCII in UTF-16, low byte first.
pub open spec fn wide_pair(bytes: Seq<u8>, i: int) -> bool {
    &&& 0 <= i
    &&& i + 1 < bytes.len()
    &&& printable(bytes[i])
    &&& bytes[i + 1] == 0
}

/// A run of such pairs begins at `i`: no pair stands right before it.
pub open spec fn wide_run_at(bytes: Seq<u8>, i: int) -> bool {
    wide_pair(bytes, i) && !wide_pair(bytes, i - 2)
}

/// Number of pairs in a row from `i` on.
pub open spec fn wide_run_len(bytes: Seq<u8>, i: int) -> nat
    decreases bytes.len() - i,
{
    if wide_pair(bytes, i) {
        1 + wide_run_len(bytes, i + 2)
    } else {
        0
    }
}

/// The characters of the `n` pairs from `i` on.
pub open spec fn wide_text(bytes: Seq<u8>, i: int, n: nat) -> Seq<char> {
    Seq::new(n, |k: int| bytes[i + 2 * k] as char)
}

/// What the run of pairs that begins at `i` yields, if one begins there.
pub open spec fn wide_hit_at(bytes: Seq<u8>, base: u64, i: int) -> Seq<ProcessExecArtifactView> {
    if wide_run_at(bytes, i) {
        candidate(
            wide_text(bytes, i, wide_run_len(bytes, i)),
            ExecArtifactEncoding::Utf16Le,
            base.wrapping_add(i as u64),
        )
    } else {
        Seq::empty()
    }
}

/// What the runs of UTF-16 pairs yield that begin at `from` or later, in the
/// order of their addresses.
pub open spec fn wide_hits(bytes: Seq<u8>, base: u64, from: int) -> Seq<ProcessExecArtifactView>
    decreases bytes.len() - from,
{
    if from < 0 || from >= bytes.len() {
        Seq::empty()
    } else {
        wide_hit_at(bytes, base, from) + wide_hits(bytes, base, from + 1)
    }
}

proof fn lemma_ascii_run_len(bytes: Seq<u8>, i: int, end: int)
    requires
        0 <= i <= end <= bytes.len(),
        forall|k: int| i <= k < end ==> printable(bytes[k]),
        end == bytes.len() || !printable(bytes[end]),
    ensures
        ascii_run_len(bytes, i) == end - i,
    decreases end - i,
{
    if i < end {
        lemma_ascii_run_len(bytes, i + 1, end);
    }
}

proof fn lemma_ascii_hits_skip(bytes: Seq<u8>, base: u64, from: int, to: int)
    requires
        0 <= from <= to <= bytes.len(),
        forall|k: int| from <= k < to ==> !ascii_run_at(bytes, k),
    ensures
        ascii_hits(bytes, base, from) == ascii_hits(bytes, base, to),
    decreases to - from,
{
    if from < to {
        lemma_ascii_hits_skip(bytes, base, from + 1, to);
        assert(ascii_hits(bytes, base, from) =~= ascii_hits(bytes, base, from + 1));
    }
}

proof fn lemma_wide_run_len(bytes: Seq<u8>, i: int, n: int)
    requires
        0 <= i,
        0 <= n,
        forall|p: int| i <= p < i + 2 * n && (p - i) % 2 == 0 ==> #[trigger] wide_pair(bytes, p),
        !wide_pair(bytes, i + 2 * n),
    ensures
        wide_run_len(bytes, i) == n,
    decreases n,
{
    if n > 0 {
        assert(wide_pair(bytes, i));
        lemma_wide_run_len(bytes, i + 2, n - 1);
    }
}

proof fn lemma_wide_hits_skip(bytes: Seq<u8>, base: u64, from: int, to: int)
    requires
        0 <= from <= to <= bytes.len(),
        forall|k: int| from <= k < to ==> !wide_run_at(bytes, k),
    ensures
        wide_hits(bytes, base, from) == wide_hits(bytes, base, to),
    decreases to - from,
{
    if from < to {
        lemma_wide_hits_skip(bytes, base, from + 1, to);
        assert(wide_hits(bytes, base, from) =~= wide_hits(bytes, base, from + 1));
    }
}

/// A run that is shorter than [`MIN_RUN`] or longer than [`MAX_RUN`] yields
/// nothing, whatever it holds.
pub proof fn lemma_run_outside_limits_yields_nothing(
    run: Seq<char>,
    encoding: ExecArtifactEncoding,
    address: u64,
)
    requires
        run.len() < MIN_RUN || run.len() > MAX_RUN,
    ensures
        candidate(run, encoding, address).len() == 0,
{
}

/// The command line that a run yields, if it yields one.
pub fn candidate_of(
    run: &[char],
    encoding: ExecArtifactEncoding,
    address: u64,
    indicators: &Vec<Vec<char>>,
) -> (r: Option<ProcessExecArtifact>)
    requires
        views(indicators@) == indicator_tokens(),
    ensures
        match r {
            Some(a) => candidate(run@, encoding, address) == seq![a.deep_view()],
            None => candidate(run@, encoding, address) == Seq::<ProcessExecArtifactView>::empty(),
        },
{
    if run.len() < MIN_RUN || run.len() > MAX_RUN {
        return None;
    }
    let text = trimmed(run);
    if !is_likely_text(text.as_slice(), indicators) {
        return None;
    }
    let image = image_in(text.as_slice());
    let a = ProcessExecArtifact {
        image: string_of(image.as_slice()),
        command_line: string_of(text.as_slice()),
        encoding,
        address: Some(address),
    };
    assert(candidate(run@, encoding, address) =~= seq![a.deep_view()]);
    Some(a)
}

proof fn lemma_capped_prefix(
    head: Seq<ProcessExecArtifactView>,
    tail: Seq<ProcessExecArtifactView>,
)
    requires
        head.len() == MAX_ARTIFACTS,
    ensures
        capped(head + tail) == head,
{
    if tail.len() > 0 {
        assert((head + tail).take(MAX_ARTIFACTS as int) =~= head);
    } else {
        assert(head + tail =~= head);
    }
}

/// The characters of `bytes[from..to]`.
fn run_text(bytes: &[u8], from: usize, to: usize) -> (r: Vec<char>)
    requires
        from <= to <= bytes.len(),
    ensures
        r@ == text_of(bytes@.subrange(from as int, to as int)),
{
    let mut r: Vec<char> = Vec::new();
    let mut i: usize = from;
    while i < to
        invariant
            from <= i <= to <= bytes.len(),
            r@.len() == i - from,
            forall|k: int| 0 <= k < i - from ==> r@[k] == bytes@[from + k] as char,
        decreases to - i,
    {
        r.push(bytes[i] as char);
        i += 1;
    }
    assert(r@ =~= text_of(bytes@.subrange(from as int, to as int)));
    r
}

/// The characters of the `n` pairs from `from` on.
fn wide_run_text(bytes: &[u8], from: usize, n: usize) -> (r: Vec<char>)
    requires
        from + 2 * n <= bytes.len(),
    ensures
        r@ == wide_text(bytes@, from as int, n as nat),
{
    let mut r: Vec<char> = Vec::new();
    let mut k: usize = 0;
    while k < n
        invariant
            k <= n,
            from + 2 * n <= bytes.len(),
            r@.len() == k,
            forall|j: int| 0 <= j < k ==> r@[j] == bytes@[from + 2 * j] as char,
        decreases n - k,
    {
        r.push(bytes[from + 2 * k] as char);
        k += 1;
    }
    assert(r@ =~= wide_text(bytes@, from as int, n as nat));
    r
}

/// Adds to `out` what the runs of printable bytes yield, until `out` holds
/// [`MAX_ARTIFACTS`] command lines.
pub fn scan_ascii(
    bytes: &[u8],
    base: u64,
    indicators: &Vec<Vec<char>>,
    out: &mut Vec<ProcessExecArtifact>,
)
    requires
        views(indicators@) == indicator_tokens(),
        old(out).len() <= MAX_ARTIFACTS,
    ensures
        final(out).deep_view() == capped(old(out).deep_view() + ascii_hits(bytes@, base, 0)),
        final(out).len() <= MAX_ARTIFACTS,
{
    let ghost all = old(out).deep_view() + ascii_hits(bytes@, base, 0);
    let mut i: usize = 0;
    while i < bytes.len() && out.len() < MAX_ARTIFACTS
        invariant
            i <= bytes.len(),
            out.len() <= MAX_ARTIFACTS,
            views(indicators@) == indicator_tokens(),
            all == out.deep_view() + ascii_hits(bytes@, base, i as int),
            i == bytes.len() || !printable(bytes@[i as int]) || ascii_run_at(bytes@, i as int),
        decreases bytes.len() - i,
    {
        let ghost before = out.deep_view();
        if !is_ascii_printable(bytes[i]) {
            assert(ascii_hits(bytes@, base, i as int) =~= ascii_hits(bytes@, base, i + 1));
            i += 1;
        } else {
            let start = i;
            let mut end = i;
            while end < bytes.len() && is_ascii_printable(bytes[end])
                invariant
                    start <= end <= bytes.len(),
                    forall|k: int| start <= k < end ==> printable(bytes@[k]),
                decreases bytes.len() - end,
            {
                end += 1;
            }
            proof {
                lemma_ascii_run_len(bytes@, start as int, end as int);
                lemma_ascii_hits_skip(bytes@, base, start + 1, end as int);
            }
            if end - start >= MIN_RUN && end - start <= MAX_RUN {
                let run = run_text(bytes, start, end);
                if let Some(a) = candidate_of(
                    run.as_slice(),
                    ExecArtifactEncoding::Ascii,
                    base.wrapping_add(start as u64),
                    indicators,
                ) {
                    let ghost view = a.deep_view();
                    out.push(a);
                    assert(out.deep_view() =~= before.push(view));
                }
            }
            assert(out.deep_view() =~= before + ascii_hit_at(bytes@, base, start as int));
            assert(all =~= out.deep_view() + ascii_hits(bytes@, base, end as int));
            i = end;
        }
    }
    proof {
        if i < bytes.len() {
            lemma_capped_prefix(out.deep_view(), ascii_hits(bytes@, base, i as int));
        } else {
            assert(all =~= out.deep_view());
        }
    }
}

/// Adds to `out` what the runs of UTF-16 pairs yield, until `out` holds
/// [`MAX_ARTIFACTS`] command lines.
pub fn scan_utf16le(
    bytes: &[u8],
    base: u64,
    indicators: &Vec<Vec<char>>,
    out: &mut Vec<ProcessExecArtifact>,
)
    requires
        views(indicators@) == indicator_tokens(),
        old(out).len() <= MAX_ARTIFACTS,
    ensures
        final(out).deep_view() == capped(old(out).deep_view() + wide_hits(bytes@, base, 0)),
        final(out).len() <= MAX_ARTIFACTS,
{
    let ghost all = old(out).deep_view() + wide_hits(bytes@, base, 0);
    let mut i: usize = 0;
    while i < bytes.len() && out.len() < MAX_ARTIFACTS
        invariant
            i <= bytes.len(),
            out.len() <= MAX_ARTIFACTS,
            views(indicators@) == indicator_tokens(),
            all == out.deep_view() + wide_hits(bytes@, base, i as int),
            !wide_pair(bytes@, i - 1),
            !wide_pair(bytes@, i - 2) || !wide_pair(bytes@, i as int),
        decreases bytes.len() - i,
    {
        let ghost before = out.deep_view();
        if !(i + 1 < bytes.len() && bytes[i + 1] == 0 && is_ascii_printable(bytes[i])) {
            assert(wide_hits(bytes@, base, i as int) =~= wide_hits(bytes@, base, i + 1));
            i += 1;
        } else {
            let start = i;
            let mut end = i;
            let mut n: usize = 0;
            while bytes.len() - end > 1 && bytes[end + 1] == 0 && is_ascii_printable(bytes[end])
                invariant
                    start <= end <= bytes.len(),
                    end == start + 2 * n,
                    forall|p: int|
                        start <= p < end && (p - start) % 2 == 0 ==> #[trigger] wide_pair(
                            bytes@,
                            p,
                        ),
                decreases bytes.len() - end,
            {
                end += 2;
                n += 1;
            }
            proof {
                lemma_wide_run_len(bytes@, start as int, n as int);
                assert forall|k: int| start < k < end implies !wide_run_at(bytes@, k) by {
                    if (k - start) % 2 == 0 {
                        assert(wide_pair(bytes@, k - 2));
                    } else {
                        assert(wide_pair(bytes@, k - 1));
                    }
                }
                lemma_wide_hits_skip(bytes@, base, start + 1, end as int);
                assert(wide_pair(bytes@, end - 2));
            }
            if n >= MIN_RUN && n <= MAX_RUN {
                let run = wide_run_text(bytes, start, n);
                if let Some(a) = candidate_of(
                    run.as_slice(),
                    ExecArtifactEncoding::Utf16Le,
                    base.wrapping_add(start as u64),
                    indicators,
                ) {
                    let ghost view = a.deep_view();
                    out.push(a);
                    assert(out.deep_view() =~= before.push(view));
                }
            }
            assert(out.deep_view() =~= before + wide_hit_at(bytes@, base, start as int));
            assert(all =~= out.deep_view() + wide_hits(bytes@, base, end as int));
            i = end;
        }
    }
    proof {
        if i < bytes.len() {
            lemma_capped_prefix(out.deep_view(), wide_hits(bytes@, base, i as int));
        } else {
            assert(all =~= out.deep_view());
        }
    }
}

/// What one stretch of memory yields: first the runs of printable bytes,
/// then the runs of UTF-16 pairs.  Both are looked for in the same bytes, so a
/// text may be found in both ways.
pub open spec fn region_hits(bytes: Seq<u8>, base: u64) -> Seq<ProcessExecArtifactView> {
    ascii_hits(bytes, base, 0) + wide_hits(bytes, base, 0)
}

proof fn lemma_capped_again(
    head: Seq<ProcessExecArtifactView>,
    tail: Seq<ProcessExecArtifactView>,
)
    ensures
        capped(capped(head) + tail) == capped(head + tail),
{
    if head.len() > MAX_ARTIFACTS {
        lemma_capped_prefix(head.take(MAX_ARTIFACTS as int), tail);
        assert((head + tail).take(MAX_ARTIFACTS as int) =~= head.take(MAX_ARTIFACTS as int));
    }
}

/// Adds to `out` what the bytes yield, until `out` holds [`MAX_ARTIFACTS`]
/// command lines.
pub fn scan_region(
    bytes: &[u8],
    base: u64,
    indicators: &Vec<Vec<char>>,
    out: &mut Vec<ProcessExecArtifact>,
)
    requires
        views(indicators@) == indicator_tokens(),
        old(out).len() <= MAX_ARTIFACTS,
    ensures
        final(out).deep_view() == capped(old(out).deep_view() + region_hits(bytes@, base)),
        final(out).len() <= MAX_ARTIFACTS,
{
    let ghost before = out.deep_view();
    if out.len() >= MAX_ARTIFACTS || bytes.len() == 0 {
        proof {
            if out.len() >= MAX_ARTIFACTS {
                lemma_capped_prefix(before, region_hits(bytes@, base));
            } else {
                assert(before + region_hits(bytes@, base) =~= before);
            }
        }
        return ;
    }
    scan_ascii(bytes, base, indicators, out);
    proof {
        lemma_capped_again(before + ascii_hits(bytes@, base, 0), wide_hits(bytes@, base, 0));
        assert((before + ascii_hits(bytes@, base, 0)) + wide_hits(bytes@, base, 0) =~= before
            + region_hits(bytes@, base));
    }
    if out.len() >= MAX_ARTIFACTS {
        proof {
            lemma_capped_prefix(out.deep_view(), wide_hits(bytes@, base, 0));
        }
        return ;
    }
    scan_utf16le(bytes, base, indicators, out);
}

/// Number of bytes of `len` that may still be inspected after `before` bytes.
pub open spec fn allowance(before: nat, len: nat) -> nat {
    if before >= MAX_SCAN_BYTES {
        0
    } else if len <= MAX_SCAN_BYTES - before {
        len
    } else {
        (MAX_SCAN_BYTES - before) as nat
    }
}

/// Number of bytes of a region of `len` bytes that are inspected when
/// `before` bytes of earlier regions were.
pub fn inspected_len(before: usize, len: usize) -> (take: usize)
    ensures
        take == allowance(before as nat, len as nat),
{
    if before >= MAX_SCAN_BYTES {
        0
    } else if len <= MAX_SCAN_BYTES - before {
        len
    } else {
        MAX_SCAN_BYTES - before
    }
}

/// Number of bytes that are inspected in the first `n` regions: each region
/// from its start, and no more than [`MAX_SCAN_BYTES`] in all.
pub open spec fn inspected(regions: Seq<MemoryRegion>, n: int) -> nat
    decreases n,
{
    if n <= 0 {
        0
    } else {
        let before = inspected(regions, n - 1);
        before + allowance(before, regions[n - 1].bytes@.len())
    }
}

/// The part of the region `k` that is inspected.
pub open spec fn inspected_part(regions: Seq<MemoryRegion>, k: int) -> Seq<u8> {
    let bytes = regions[k].bytes@;
    bytes.take(allowance(inspected(regions, k), bytes.len()) as int)
}

/// What the inspected parts of the first `n` regions yield, in region order.
pub open spec fn hits_in(regions: Seq<MemoryRegion>, n: int) -> Seq<ProcessExecArtifactView>
    decreases n,
{
    if n <= 0 {
        Seq::empty()
    } else {
        hits_in(regions, n - 1) + region_hits(
            inspected_part(regions, n - 1),
            regions[n - 1].base_address,
        )
    }
}

/// The regions that are scanned: those of the 64-bit memory list when the
/// dump has one, else those of the older memory list, never both.
pub open spec fn scanned_regions(
    memory64: Option<&Vec<MemoryRegion>>,
    memory: Option<&Vec<MemoryRegion>>,
) -> Seq<MemoryRegion> {
    match memory64 {
        Some(list) => list@,
        None => match memory {
            Some(list) => list@,
            None => Seq::empty(),
        },
    }
}

/// The command lines recovered from the regions: what their inspected parts
/// yield, cut after [`MAX_ARTIFACTS`], and of those with one key the first.
pub open spec fn recovered(regions: Seq<MemoryRegion>) -> Seq<ProcessExecArtifactView> {
    let raw = capped(hits_in(regions, regions.len() as int));
    capped(deduplicated(raw, raw.len() as int))
}

/// No more than [`MAX_SCAN_BYTES`] bytes are inspected, however large the
/// regions are.
pub proof fn lemma_inspected_is_bounded(regions: Seq<MemoryRegion>, n: int)
    ensures
        inspected(regions, n) <= MAX_SCAN_BYTES,
    decreases n,
{
    if n > 0 {
        lemma_inspected_is_bounded(regions, n - 1);
    }
}

proof fn lemma_nothing_after_budget(regions: Seq<MemoryRegion>, i: int, n: int)
    requires
        0 <= i <= n,
        inspected(regions, i) >= MAX_SCAN_BYTES,
    ensures
        inspected(regions, n) == inspected(regions, i),
        hits_in(regions, n) == hits_in(regions, i),
    decreases n - i,
{
    if i < n {
        lemma_nothing_after_budget(regions, i, n - 1);
        lemma_inspected_is_bounded(regions, i);
        assert(inspected_part(regions, n - 1) =~= Seq::<u8>::empty());
        assert(hits_in(regions, n) =~= hits_in(regions, n - 1));
    }
}

proof fn lemma_nothing_after_cap(regions: Seq<MemoryRegion>, i: int, n: int)
    requires
        0 <= i <= n,
        hits_in(regions, i).len() >= MAX_ARTIFACTS,
    ensures
        hits_in(regions, n).len() >= MAX_ARTIFACTS,
        capped(hits_in(regions, n)) == capped(hits_in(regions, i)),
    decreases n - i,
{
    if i < n {
        lemma_nothing_after_cap(regions, i, n - 1);
        let head = hits_in(regions, n - 1);
        let tail = region_hits(inspected_part(regions, n - 1), regions[n - 1].base_address);
        assert((head + tail).take(MAX_ARTIFACTS as int) =~= head.take(MAX_ARTIFACTS as int));
        assert(capped(head + tail) =~= capped(head));
    }
}

/// Recovers command lines from the raw memory of a dump.
///
/// The regions are inspected in order, each from its start, until
/// [`MAX_SCAN_BYTES`] bytes were inspected or [`MAX_ARTIFACTS`] command lines
/// were found.  Of the command lines that differ only in the case of letters
/// or in white space, the first is kept.
pub fn extract_exec_artifacts(
    memory64: Option<&Vec<MemoryRegion>>,
    memory: Option<&Vec<MemoryRegion>>,
) -> (out: Vec<ProcessExecArtifact>)
    ensures
        out.deep_view() == recovered(scanned_regions(memory64, memory)),
        out.len() <= MAX_ARTIFACTS,
{
    let none: Vec<MemoryRegion> = Vec::new();
    let regions: &Vec<MemoryRegion> = match memory64 {
        Some(list) => list,
        None => match memory {
            Some(list) => list,
            None => &none,
        },
    };
    assert(regions@ =~= scanned_regions(memory64, memory));
    let indicators = indicator_table();
    let mut out: Vec<ProcessExecArtifact> = Vec::new();
    let mut scanned: usize = 0;
    let mut i: usize = 0;
    assert(out.deep_view() =~= capped(hits_in(regions@, 0)));
    while i < regions.len() && scanned < MAX_SCAN_BYTES && out.len() < MAX_ARTIFACTS
        invariant
            i <= regions.len(),
            views(indicators@) == indicator_tokens(),
            out.len() <= MAX_ARTIFACTS,
            scanned == inspected(regions@, i as int),
            scanned <= MAX_SCAN_BYTES,
            out.deep_view() == capped(hits_in(regions@, i as int)),
        decreases regions.len() - i,
    {
        let region = &regions[i];
        let take = inspected_len(scanned, region.bytes.len());
        let part = vstd::slice::slice_subrange(region.bytes.as_slice(), 0, take);
        assert(part@ =~= inspected_part(regions@, i as int));
        proof {
            lemma_capped_again(
                hits_in(regions@, i as int),
                region_hits(part@, region.base_address),
            );
        }
        scan_region(part, region.base_address, &indicators, &mut out);
        scanned = scanned + take;
        i += 1;
    }
    proof {
        let n = regions@.len() as int;
        if i < n {
            if scanned >= MAX_SCAN_BYTES {
                lemma_nothing_after_budget(regions@, i as int, n);
            } else {
                assert(out.deep_view().len() == out@.len());
                lemma_nothing_after_cap(regions@, i as int, n);
            }
        }
        assert(out.deep_view() == capped(hits_in(regions@, n)));
        lemma_deduplicated_is_shorter(out.deep_view(), out.deep_view().len() as int);
    }
    let kept = dedup_artifacts(out);
    assert(kept.deep_view().len() == kept@.len());
    kept
}

/// The item of `s` at `j` is the first of its key and stands in `kept`.
pub open spec fn kept_from(
    kept: Seq<ProcessExecArtifactView>,
    s: Seq<ProcessExecArtifactView>,
    n: int,
    i: int,
) -> bool {
    exists|j: int| 0 <= j < n && kept[i] == #[trigger] s[j] && first_of_its_key(s, j)
}

/// Of the command lines that have one key, whether they differ in the case of
/// letters or in white space, exactly one is kept, and it is the first of
/// them: every kept item is the first of its key, no two kept items have the
/// same key, and every key of the input is the key of a kept item.
pub proof fn lemma_one_per_key(s: Seq<ProcessExecArtifactView>, n: int)
    requires
        0 <= n <= s.len(),
    ensures
        forall|i: int|
            0 <= i < deduplicated(s, n).len() ==> #[trigger] kept_from(deduplicated(s, n), s, n, i),
        forall|a: int, b: int|
            #![trigger deduplicated(s, n)[a], deduplicated(s, n)[b]]
            0 <= a < b < deduplicated(s, n).len() ==> key_of(deduplicated(s, n)[a]) != key_of(
                deduplicated(s, n)[b],
            ),
        forall|j: int|
            0 <= j < n ==> exists|i: int|
                0 <= i < deduplicated(s, n).len() && key_of(#[trigger] deduplicated(s, n)[i])
                    == key_of(#[trigger] s[j]),
    decreases n,
{
    if n > 0 {
        lemma_one_per_key(s, n - 1);
        let before = deduplicated(s, n - 1);
        let after = deduplicated(s, n);
        assert forall|i: int| 0 <= i < after.len() implies #[trigger] kept_from(after, s, n, i) by {
            if i < before.len() {
                assert(kept_from(before, s, n - 1, i));
                let j = choose|j: int|
                    0 <= j < n - 1 && before[i] == #[trigger] s[j] && first_of_its_key(s, j);
                assert(after[i] == s[j]);
            } else {
                assert(after[i] == s[n - 1]);
            }
        }
        assert forall|a: int, b: int|
            #![trigger after[a], after[b]]
            0 <= a < b < after.len() implies key_of(after[a]) != key_of(after[b]) by {
            if b < before.len() {
                assert(key_of(before[a]) != key_of(before[b]));
            } else {
                assert(kept_from(before, s, n - 1, a));
                let j = choose|j: int|
                    0 <= j < n - 1 && before[a] == #[trigger] s[j] && first_of_its_key(s, j);
                assert(key_of(s[j]) != key_of(s[n - 1]));
            }
        }
        assert forall|j: int| 0 <= j < n implies exists|i: int|
            0 <= i < after.len() && key_of(#[trigger] after[i]) == key_of(#[trigger] s[j]) by {
            if j < n - 1 {
                let i = choose|i: int|
                    0 <= i < before.len() && key_of(#[trigger] before[i]) == key_of(s[j]);
                assert(key_of(after[i]) == key_of(s[j]));
            } else if first_of_its_key(s, n - 1) {
                assert(key_of(after[before.len() as int]) == key_of(s[j]));
            } else {
                let k = choose|k: int| 0 <= k < n - 1 && key_of(#[trigger] s[k]) == key_of(s[n - 1]);
                let i = choose|i: int|
                    0 <= i < before.len() && key_of(#[trigger] before[i]) == key_of(s[k]);
                assert(key_of(after[i]) == key_of(s[j]));
            }
        }
    }
}

/// The artifact is a command line as the scan yields them: it looks like
/// one, its image is that of its command line, and its address is known.
pub open spec fn as_scanned(a: ProcessExecArtifactView) -> bool {
    &&& likely_command_line(a.command_line)
    &&& a.image == image_of(a.command_line)
    &&& a.address is Some
}

/// Every artifact is as the scan yields them.
pub open spec fn all_as_scanned(s: Seq<ProcessExecArtifactView>) -> bool {
    forall|i: int| 0 <= i < s.len() ==> as_scanned(#[trigger] s[i])
}

proof fn lemma_ascii_hits_as_scanned(bytes: Seq<u8>, base: u64, from: int)
    ensures
        all_as_scanned(ascii_hits(bytes, base, from)),
    decreases bytes.len() - from,
{
    if 0 <= from < bytes.len() {
        lemma_ascii_hits_as_scanned(bytes, base, from + 1);
    }
}

proof fn lemma_wide_hits_as_scanned(bytes: Seq<u8>, base: u64, from: int)
    ensures
        all_as_scanned(wide_hits(bytes, base, from)),
    decreases bytes.len() - from,
{
    if 0 <= from < bytes.len() {
        lemma_wide_hits_as_scanned(bytes, base, from + 1);
    }
}

proof fn lemma_hits_in_as_scanned(regions: Seq<MemoryRegion>, n: int)
    ensures
        all_as_scanned(hits_in(regions, n)),
    decreases n,
{
    if n > 0 {
        lemma_hits_in_as_scanned(regions, n - 1);
        lemma_ascii_hits_as_scanned(inspected_part(regions, n - 1), regions[n - 1].base_address, 0);
        lemma_wide_hits_as_scanned(inspected_part(regions, n - 1), regions[n - 1].base_address, 0);
    }
}

proof fn lemma_deduplicated_as_scanned(s: Seq<ProcessExecArtifactView>, n: int)
    requires
        0 <= n <= s.len(),
        all_as_scanned(s),
    ensures
        all_as_scanned(deduplicated(s, n)),
    decreases n,
{
    if n > 0 {
        lemma_deduplicated_as_scanned(s, n - 1);
    }
}

/// Every recovered command line has between [`MIN_RUN`] and [`MAX_RUN`]
/// characters, holds an indicator and no character that is not ASCII or is
/// a control character, and comes with its image and its address.
pub proof fn lemma_recovered_are_command_lines(regions: Seq<MemoryRegion>)
    ensures
        all_as_scanned(recovered(regions)),
        recovered(regions).len() <= MAX_ARTIFACTS,
{
    lemma_hits_in_as_scanned(regions, regions.len() as int);
    let raw = capped(hits_in(regions, regions.len() as int));
    assert(all_as_scanned(raw));
    lemma_deduplicated_as_scanned(raw, raw.len() as int);
}

/// `a` and `b` differ at most in the case of ASCII letters.
pub open spec fn same_but_for_case(a: Seq<char>, b: Seq<char>) -> bool {
    &&& a.len() == b.len()
    &&& forall|i: int| 0 <= i < a.len() ==> lower_char(a[i]) == lower_char(b[i])
}

proof fn lemma_collapsed_ignores_case(a: Seq<char>, b: Seq<char>)
    requires
        same_but_for_case(a, b),
    ensures
        collapsed(a) == collapsed(b),
    decreases a.len(),
{
    if a.len() > 0 {
        lemma_collapsed_ignores_case(a.drop_last(), b.drop_last());
        assert(lower_char(a[a.len() - 1]) == lower_char(b[b.len() - 1]));
        if a.len() >= 2 {
            assert(lower_char(a[a.len() - 2]) == lower_char(b[b.len() - 2]));
        }
    }
}

/// Two command lines that differ only in the case of letters have the same
/// key.
pub proof fn lemma_key_ignores_case(a: Seq<char>, b: Seq<char>)
    requires
        same_but_for_case(a, b),
    ensures
        command_key(a) == command_key(b),
{
    let (from, to) = lemma_trim_bounds_exist(a);
    assert(trims_to(b, from, to)) by {
        assert forall|k: int| 0 <= k < a.len() implies is_space(a[k]) == is_space(b[k]) by {
            assert(lower_char(a[k]) == lower_char(b[k]));
        }
    }
    lemma_trim_is_subrange(a, from, to);
    lemma_trim_is_subrange(b, from, to);
    lemma_collapsed_ignores_case(a.subrange(from, to), b.subrange(from, to));
}

proof fn lemma_collapsed_ignores_extra_space(s: Seq<char>, at: int, extra: char)
    requires
        0 <= at < s.len(),
        is_space(s[at]),
        is_space(extra),
    ensures
        collapsed(s.insert(at, extra)) == collapsed(s),
    decreases s.len(),
{
    let longer = s.insert(at, extra);
    let head = s.drop_last();
    assert(longer.last() == s.last());
    if at == s.len() - 1 {
        let middle = head.push(extra);
        assert(longer.drop_last() =~= middle);
        assert(longer[longer.len() - 2] == extra);
        assert(collapsed(longer) == collapsed(middle));
        assert(middle.drop_last() =~= head);
        if head.len() > 0 {
            assert(middle[middle.len() - 2] == head.last());
            assert(s[s.len() - 2] == head.last());
        }
    } else {
        assert(longer.drop_last() =~= head.insert(at, extra));
        assert(longer[longer.len() - 2] == s[s.len() - 2]);
        assert(head[at] == s[at]);
        lemma_collapsed_ignores_extra_space(head, at, extra);
    }
}

/// One more white-space character next to white space leaves the key of a
/// command line as it is.
pub proof fn lemma_key_ignores_extra_space(s: Seq<char>, at: int, extra: char)
    requires
        0 <= at < s.len(),
        is_space(s[at]),
        is_space(extra),
    ensures
        command_key(s.insert(at, extra)) == command_key(s),
{
    let longer = s.insert(at, extra);
    let (from, to) = lemma_trim_bounds_exist(s);
    lemma_trim_is_subrange(s, from, to);
    if from == to {
        let end = longer.len() as int;
        assert(trims_to(longer, end, end)) by {
            assert forall|k: int| 0 <= k < end implies is_space(longer[k]) by {
                if k > at {
                    assert(longer[k] == s[k - 1]);
                } else if k < at {
                    assert(longer[k] == s[k]);
                }
            }
        }
        lemma_trim_is_subrange(longer, end, end);
        assert(longer.subrange(end, end) =~= s.subrange(from, to));
    } else if at < from {
        assert(trims_to(longer, from + 1, to + 1)) by {
            assert forall|k: int| 0 <= k < from + 1 implies is_space(longer[k]) by {
                if k > at {
                    assert(longer[k] == s[k - 1]);
                } else if k < at {
                    assert(longer[k] == s[k]);
                }
            }
            assert forall|k: int| to + 1 <= k < longer.len() implies is_space(longer[k]) by {
                assert(longer[k] == s[k - 1]);
            }
            assert(longer[from + 1] == s[from]);
            assert(longer[to] == s[to - 1]);
        }
        lemma_trim_is_subrange(longer, from + 1, to + 1);
        assert(longer.subrange(from + 1, to + 1) =~= s.subrange(from, to));
    } else if at >= to {
        assert(trims_to(longer, from, to)) by {
            assert forall|k: int| to <= k < longer.len() implies is_space(longer[k]) by {
                if k > at {
                    assert(longer[k] == s[k - 1]);
                }
            }
        }
        lemma_trim_is_subrange(longer, from, to);
        assert(longer.subrange(from, to) =~= s.subrange(from, to));
    } else {
        assert(trims_to(longer, from, to + 1)) by {
            assert forall|k: int| to + 1 <= k < longer.len() implies is_space(longer[k]) by {
                assert(longer[k] == s[k - 1]);
            }
            assert(longer[to] == s[to - 1]);
        }
        lemma_trim_is_subrange(longer, from, to + 1);
        assert(longer.subrange(from, to + 1) =~= s.subrange(from, to).insert(at - from, extra));
        lemma_collapsed_ignores_extra_space(s.subrange(from, to), at - from, extra);
    }
}

proof fn lemma_collapsed_ignores_kind_of_space(s: Seq<char>, at: int, other: char)
    requires
        0 <= at < s.len(),
        is_space(s[at]),
        is_space(other),
    ensures
        collapsed(s.update(at, other)) == collapsed(s),
    decreases s.len(),
{
    let changed = s.update(at, other);
    if at == s.len() - 1 {
        assert(changed.drop_last() =~= s.drop_last());
    } else {
        assert(changed.drop_last() =~= s.drop_last().update(at, other));
        lemma_collapsed_ignores_kind_of_space(s.drop_last(), at, other);
    }
}

/// One white-space character in place of another leaves the key of a
/// command line as it is.
pub proof fn lemma_key_ignores_kind_of_space(s: Seq<char>, at: int, other: char)
    requires
        0 <= at < s.len(),
        is_space(s[at]),
        is_space(other),
    ensures
        command_key(s.update(at, other)) == command_key(s),
{
    let changed = s.update(at, other);
    let (from, to) = lemma_trim_bounds_exist(s);
    lemma_trim_is_subrange(s, from, to);
    assert(trims_to(changed, from, to));
    lemma_trim_is_subrange(changed, from, to);
    if from <= at < to {
        assert(changed.subrange(from, to) =~= s.subrange(from, to).update(at - from, other));
        lemma_collapsed_ignores_kind_of_space(s.subrange(from, to), at - from, other);
    } else {
        assert(changed.subrange(from, to) =~= s.subrange(from, to));
    }
}

/// `cut` holds the regions of `whole`, each reduced to its inspected part.
pub open spec fn cut_to_inspected(cut: Seq<MemoryRegion>, whole: Seq<MemoryRegion>) -> bool {
    &&& cut.len() == whole.len()
    &&& forall|i: int|
        0 <= i < whole.len() ==> (#[trigger] cut[i]).base_address == whole[i].base_address
            && cut[i].bytes@ == inspected_part(whole, i)
}

proof fn lemma_cut_regions_yield_the_same(cut: Seq<MemoryRegion>, whole: Seq<MemoryRegion>, n: int)
    requires
        cut_to_inspected(cut, whole),
        0 <= n <= whole.len(),
    ensures
        inspected(cut, n) == inspected(whole, n),
        hits_in(cut, n) == hits_in(whole, n),
    decreases n,
{
    if n > 0 {
        lemma_cut_regions_yield_the_same(cut, whole, n - 1);
        lemma_inspected_is_bounded(whole, n - 1);
        assert(cut[n - 1].bytes@ == inspected_part(whole, n - 1));
        assert(inspected_part(cut, n - 1) =~= inspected_part(whole, n - 1));
    }
}

/// What lies beyond the inspected part of a region has no influence on what
/// is recovered: the regions cut to their inspected parts yield the same.
pub proof fn lemma_bytes_beyond_the_limit_do_not_matter(
    cut: Seq<MemoryRegion>,
    whole: Seq<MemoryRegion>,
)
    requires
        cut_to_inspected(cut, whole),
    ensures
        recovered(cut) == recovered(whole),
{
    lemma_cut_regions_yield_the_same(cut, whole, whole.len() as int);
}

/// Number of bytes that are inspected in the first `n` regions, given the
/// sizes of the regions.
pub open spec fn inspected_of_sizes(sizes: Seq<usize>, n: int) -> nat
    decreases n,
{
    if n <= 0 {
        0
    } else {
        let before = inspected_of_sizes(sizes, n - 1);
        before + allowance(before, sizes[n - 1] as nat)
    }
}

/// `sizes` holds the sizes of the regions, in order.
pub open spec fn sizes_of(sizes: Seq<usize>, regions: Seq<MemoryRegion>) -> bool {
    &&& sizes.len() == regions.len()
    &&& forall|i: int| 0 <= i < regions.len() ==> #[trigger] sizes[i] == regions[i].bytes@.len()
}

/// What is inspected of the regions depends on their sizes alone.
pub proof fn lemma_inspected_by_sizes(sizes: Seq<usize>, regions: Seq<MemoryRegion>, n: int)
    requires
        sizes_of(sizes, regions),
        0 <= n <= regions.len(),
    ensures
        inspected_of_sizes(sizes, n) == inspected(regions, n),
    decreases n,
{
    if n > 0 {
        lemma_inspected_by_sizes(sizes, regions, n - 1);
    }
}

/// Regions that hold, of each region of `whole`, as many bytes from its
/// start as [`inspected_lengths`] says are the regions of `whole` cut to
/// their inspected parts.
pub proof fn lemma_cut_by_lengths(
    cut: Seq<MemoryRegion>,
    whole: Seq<MemoryRegion>,
    sizes: Seq<usize>,
)
    requires
        sizes_of(sizes, whole),
        cut.len() == whole.len(),
        forall|i: int|
            0 <= i < whole.len() ==> (#[trigger] cut[i]).base_address == whole[i].base_address
                && cut[i].bytes@ == whole[i].bytes@.take(
                allowance(inspected_of_sizes(sizes, i), sizes[i] as nat) as int,
            ),
    ensures
        cut_to_inspected(cut, whole),
{
    assert forall|i: int| 0 <= i < whole.len() implies (#[trigger] cut[i]).bytes@
        == inspected_part(whole, i) by {
        lemma_inspected_by_sizes(sizes, whole, i);
    }
}

/// How many bytes of each region are inspected, from its start, given the
/// sizes of the regions in order.  A reader of a dump need not hold more of a
/// region than that.
pub fn inspected_lengths(sizes: &Vec<usize>) -> (takes: Vec<usize>)
    ensures
        takes@.len() == sizes@.len(),
        forall|i: int|
            0 <= i < sizes@.len() ==> #[trigger] takes@[i] == allowance(
                inspected_of_sizes(sizes@, i),
                sizes@[i] as nat,
            ),
{
    let mut takes: Vec<usize> = Vec::new();
    let mut scanned: usize = 0;
    let mut i: usize = 0;
    while i < sizes.len()
        invariant
            i <= sizes.len(),
            takes@.len() == i,
            scanned == inspected_of_sizes(sizes@, i as int),
            scanned <= MAX_SCAN_BYTES,
            forall|k: int|
                0 <= k < i ==> #[trigger] takes@[k] == allowance(
                    inspected_of_sizes(sizes@, k),
                    sizes@[k] as nat,
                ),
        decreases sizes.len() - i,
    {
        let take = inspected_len(scanned, sizes[i]);
        takes.push(take);
        scanned = scanned + take;
        i += 1;
    }
    takes
}

} // verus!
