//! Detection of committed, private, executable memory that no loaded module
//! backs.  Findings are gathered per allocation base, then ranked.

use crate::model::minidump_report::InjectedRegionView;
use crate::model::{InjectedRegion, ModuleInfo, ProcessExecArtifact, Severity, ThreadInfo};
use crate::text::{
    hex_text, pad_left, push_hex, push_hex_padded, push_once, push_str, string_of, texts, with_text,
};
use minidump::MinidumpMemoryInfoList;
use std::collections::{HashMap, HashSet};
use vstd::prelude::*;
use vstd::std_specs::hash::spec_keys_iter;
use vstd::std_specs::iter::IteratorSpec;

verus! {

broadcast use {vstd::string::group_string_axioms, vstd::std_specs::hash::group_hash_axioms};

/// Any of the four execute protections of a page.
pub const PAGE_EXECUTE_ANY: u32 = 0xF0;

/// Read, write and execute at once.
pub const PAGE_EXECUTE_READWRITE: u32 = 0x40;

/// The pages of the region are backed by storage.
pub const MEM_COMMIT: u32 = 0x1000;

/// The pages of the region are private to the process.
pub const MEM_PRIVATE: u32 = 0x2_0000;

/// One record of the memory-protection metadata of a dump.
#[derive(Clone, Copy, Debug, PartialEq, Eq, Structural)]
pub struct MemoryInfoEntry {
    pub base_address: u64,
    /// Base of the reservation that the region belongs to.
    pub allocation_base: u64,
    pub region_size: u64,
    pub protection: u32,
    pub ty: u32,
    pub state: u32,
}

/// The memory-protection metadata of a dump, as the `minidump` crate holds it.
#[verifier::external_type_specification]
#[verifier::external_body]
pub struct ExMinidumpMemoryInfoList<'a>(MinidumpMemoryInfoList<'a>);

/// The records of a metadata list, in the order in which the dump stores them.
pub uninterp spec fn memory_info_entries(list: &MinidumpMemoryInfoList<'_>) -> Seq<MemoryInfoEntry>;

/// The record that `MinidumpMemoryInfoList::memory_info_at_address` answers
/// with for an address, given the records of the list.
pub uninterp spec fn covering_entry(entries: Seq<MemoryInfoEntry>, address: u64) -> Option<
    MemoryInfoEntry,
>;

/// `MinidumpMemoryInfoList::iter`, each record reduced to its raw numbers.
#[verifier::external_body]
fn read_entries(list: &MinidumpMemoryInfoList<'_>) -> (v: Vec<MemoryInfoEntry>)
    ensures
        v@ == memory_info_entries(list),
{
    list.iter().map(
        |r|
            MemoryInfoEntry {
                base_address: r.raw.base_address,
                allocation_base: r.raw.allocation_base,
                region_size: r.raw.region_size,
                protection: r.raw.protection,
                ty: r.raw._type,
                state: r.raw.state,
            },
    ).collect()
}

/// `MinidumpMemoryInfoList::memory_info_at_address`.  The list keeps a map from
/// address ranges to records, which leaves out empty records and records that
/// overlap an earlier one; what it answers with is one of the records of the
/// list, it is not empty, and the address lies inside it.
#[verifier::external_body]
fn entry_at(list: &MinidumpMemoryInfoList<'_>, address: u64) -> (r: Option<MemoryInfoEntry>)
    ensures
        r == covering_entry(memory_info_entries(list), address),
        r matches Some(e) ==> memory_info_entries(list).contains(e) && e.base_address <= address
            && address - e.base_address < e.region_size,
{
    list.memory_info_at_address(address).map(
        |r|
            MemoryInfoEntry {
                base_address: r.raw.base_address,
                allocation_base: r.raw.allocation_base,
                region_size: r.raw.region_size,
                protection: r.raw.protection,
                ty: r.raw._type,
                state: r.raw.state,
            },
    )
}

/// Sum of two sizes, held at the largest `u64` when it would pass it.
pub open spec fn capped_sum(a: u64, b: u64) -> u64 {
    if a + b > u64::MAX {
        u64::MAX
    } else {
        (a + b) as u64
    }
}

/// Base and size of a module: it occupies the addresses from the base up to,
/// not including, base plus size.
pub open spec fn range_of(m: ModuleInfo) -> (u64, u64) {
    (m.base, m.size)
}

/// Base and size of each module, in module order.
pub open spec fn ranges_of(modules: Seq<ModuleInfo>) -> Seq<(u64, u64)> {
    Seq::new(modules.len(), |i: int| range_of(modules[i]))
}

/// `addr` lies inside the range of the given base and size.
pub open spec fn inside(range: (u64, u64), addr: u64) -> bool {
    range.0 <= addr && addr < range.0 + range.1
}

/// The region of `size` bytes at `base` reaches into the range.
pub open spec fn reaches(range: (u64, u64), base: u64, size: u64) -> bool {
    base < range.0 + range.1 && base + size > range.0
}

/// `addr` lies inside one of the ranges.
pub open spec fn in_any(ranges: Seq<(u64, u64)>, addr: u64) -> bool {
    exists|i: int| 0 <= i < ranges.len() && inside(#[trigger] ranges[i], addr)
}

/// The region of `size` bytes at `base` reaches into one of the ranges.
pub open spec fn overlaps(ranges: Seq<(u64, u64)>, base: u64, size: u64) -> bool {
    exists|i: int| 0 <= i < ranges.len() && reaches(#[trigger] ranges[i], base, size)
}

/// The protection allows execution.
pub open spec fn executable_bits(protection: u32) -> bool {
    protection & PAGE_EXECUTE_ANY != 0
}

/// The protection is read-write-execute.
pub open spec fn rwx_bits(protection: u32) -> bool {
    protection & PAGE_EXECUTE_READWRITE == PAGE_EXECUTE_READWRITE
}

/// The record describes committed, private, executable memory outside every
/// module.
pub open spec fn suspicious(e: MemoryInfoEntry, ranges: Seq<(u64, u64)>) -> bool {
    &&& e.state & MEM_COMMIT == MEM_COMMIT
    &&& e.ty & MEM_PRIVATE == MEM_PRIVATE
    &&& executable_bits(e.protection)
    &&& !overlaps(ranges, e.base_address, e.region_size)
}

/// Base and size of each module, in module order.
pub fn module_ranges(modules: &[ModuleInfo]) -> (r: Vec<(u64, u64)>)
    ensures
        r@ == ranges_of(modules@),
{
    let mut r: Vec<(u64, u64)> = Vec::new();
    let mut i: usize = 0;
    while i < modules.len()
        invariant
            i <= modules.len(),
            r@.len() == i,
            forall|k: int| 0 <= k < i ==> r@[k] == range_of(modules@[k]),
        decreases modules.len() - i,
    {
        let m = &modules[i];
        r.push((m.base, m.size));
        i += 1;
    }
    assert(r@ =~= ranges_of(modules@));
    r
}

/// Position of a severity in the ranking of the findings.
pub fn risk_rank(s: Severity) -> (r: u8)
    ensures
        r == s.rank(),
{
    match s {
        Severity::High => 0,
        Severity::Warning => 1,
        Severity::Info => 2,
    }
}

/// Whether the protection allows execution.
pub fn is_executable(protection: u32) -> (r: bool)
    ensures
        r == executable_bits(protection),
{
    protection & PAGE_EXECUTE_ANY != 0
}

/// Whether the protection is read-write-execute.
pub fn is_rwx(protection: u32) -> (r: bool)
    ensures
        r == rwx_bits(protection),
{
    protection & PAGE_EXECUTE_READWRITE == PAGE_EXECUTE_READWRITE
}

/// Whether the region of `size` bytes at `base` reaches into one of the
/// ranges.
pub fn overlaps_any(ranges: &[(u64, u64)], base: u64, size: u64) -> (r: bool)
    ensures
        r == overlaps(ranges@, base, size),
{
    let end: u128 = base as u128 + size as u128;
    let mut i: usize = 0;
    while i < ranges.len()
        invariant
            i <= ranges.len(),
            end == base + size,
            forall|k: int| 0 <= k < i ==> !reaches(#[trigger] ranges@[k], base, size),
        decreases ranges.len() - i,
    {
        let (start, len) = ranges[i];
        if (base as u128) < start as u128 + len as u128 && end > start as u128 {
            return true;
        }
        i += 1;
    }
    false
}

/// Whether `addr` lies inside one of the ranges.
pub fn addr_in_any(ranges: &[(u64, u64)], addr: u64) -> (r: bool)
    ensures
        r == in_any(ranges@, addr),
{
    let mut i: usize = 0;
    while i < ranges.len()
        invariant
            i <= ranges.len(),
            forall|k: int| 0 <= k < i ==> !inside(#[trigger] ranges@[k], addr),
        decreases ranges.len() - i,
    {
        let (start, len) = ranges[i];
        if addr >= start && addr - start < len {
            return true;
        }
        i += 1;
    }
    false
}

/// Whether the record describes committed, private, executable memory
/// outside every module.
pub fn is_suspicious(e: &MemoryInfoEntry, ranges: &[(u64, u64)]) -> (r: bool)
    ensures
        r == suspicious(*e, ranges@),
{
    if e.state & MEM_COMMIT != MEM_COMMIT {
        return false;
    }
    if e.ty & MEM_PRIVATE != MEM_PRIVATE {
        return false;
    }
    if !is_executable(e.protection) {
        return false;
    }
    !overlaps_any(ranges, e.base_address, e.region_size)
}

/// Reason for executable memory that no module backs.
pub open spec fn unbacked_reason() -> Seq<char> {
    "committed private executable memory not backed by a module"@
}

/// Reason for memory that is writable and executable at once.
pub open spec fn rwx_reason() -> Seq<char> {
    "RWX protection"@
}

/// Reason for an allocation in which a recovered command line stands.
pub open spec fn artifact_reason() -> Seq<char> {
    "recovered execution artifact string points into this allocation"@
}

/// Reason for a thread that started at `start`, outside every module.
pub open spec fn thread_reason(tid: u32, start: u64) -> Seq<char> {
    "thread start outside modules: tid=0x"@ + hex_text(tid as nat) + " start=0x"@ + pad_left(
        hex_text(start as nat),
        16,
        '0',
    )
}

/// What has been gathered about one allocation.
#[verifier::ext_equal]
pub struct AllocationModel {
    /// Bytes of the regions seen, each region base counted once, capped.
    pub size: u64,
    /// Union of the protection flags seen.
    pub prot_bits: u32,
    /// Union of the memory type flags seen.
    pub ty_bits: u32,
    /// Union of the memory state flags seen.
    pub state_bits: u32,
    pub reasons: Seq<Seq<char>>,
    pub risk: Severity,
    /// Bases of the regions counted in `size`.
    pub seen: Set<u64>,
}

/// An allocation about which nothing is known yet.
pub open spec fn fresh() -> AllocationModel {
    AllocationModel {
        size: 0,
        prot_bits: 0,
        ty_bits: 0,
        state_bits: 0,
        reasons: Seq::empty(),
        risk: Severity::Warning,
        seen: Set::empty(),
    }
}

/// `a` after the record `e` was merged into it: flags united, and the size of
/// `e` added unless a region with its base was counted before.
pub open spec fn absorbed(a: AllocationModel, e: MemoryInfoEntry) -> AllocationModel {
    AllocationModel {
        size: if a.seen.contains(e.base_address) {
            a.size
        } else {
            capped_sum(a.size, e.region_size)
        },
        prot_bits: a.prot_bits | e.protection,
        ty_bits: a.ty_bits | e.ty,
        state_bits: a.state_bits | e.state,
        seen: a.seen.insert(e.base_address),
        ..a
    }
}

/// `a` with one more reason, unless it has that reason already.
pub open spec fn reasoned(a: AllocationModel, reason: Seq<char>) -> AllocationModel {
    AllocationModel { reasons: with_text(a.reasons, reason), ..a }
}

/// `a` at high risk.
pub open spec fn raised(a: AllocationModel) -> AllocationModel {
    AllocationModel { risk: Severity::High, ..a }
}

/// `a` after a suspicious metadata record `e` of its allocation.
pub open spec fn metadata_noted(a: AllocationModel, e: MemoryInfoEntry) -> AllocationModel {
    let b = reasoned(absorbed(a, e), unbacked_reason());
    if rwx_bits(e.protection) {
        reasoned(raised(b), rwx_reason())
    } else {
        b
    }
}

/// `a` after a thread was found to start in the record `hit` of its allocation.
pub open spec fn thread_noted(a: AllocationModel, hit: MemoryInfoEntry, tid: u32, start: u64) -> AllocationModel {
    reasoned(raised(absorbed(a, hit)), thread_reason(tid, start))
}

/// `a` after a recovered command line was found to stand in the record `hit`
/// of its allocation.
pub open spec fn artifact_noted(a: AllocationModel, hit: MemoryInfoEntry) -> AllocationModel {
    reasoned(absorbed(a, hit), artifact_reason())
}

/// What `m` holds for `base`, or a fresh allocation.
pub open spec fn entry_of(m: Map<u64, AllocationModel>, base: u64) -> AllocationModel {
    if m.dom().contains(base) {
        m[base]
    } else {
        fresh()
    }
}

pub open spec fn note_metadata(m: Map<u64, AllocationModel>, e: MemoryInfoEntry) -> Map<
    u64,
    AllocationModel,
> {
    m.insert(e.allocation_base, metadata_noted(entry_of(m, e.allocation_base), e))
}

pub open spec fn note_thread(
    m: Map<u64, AllocationModel>,
    hit: MemoryInfoEntry,
    tid: u32,
    start: u64,
) -> Map<u64, AllocationModel> {
    m.insert(hit.allocation_base, thread_noted(entry_of(m, hit.allocation_base), hit, tid, start))
}

pub open spec fn note_artifact(m: Map<u64, AllocationModel>, hit: MemoryInfoEntry) -> Map<
    u64,
    AllocationModel,
> {
    m.insert(hit.allocation_base, artifact_noted(entry_of(m, hit.allocation_base), hit))
}

/// Without metadata, a thread that starts outside every module is filed under
/// its start address, with no size and no flags.
pub open spec fn note_unmapped_thread(m: Map<u64, AllocationModel>, tid: u32, start: u64) -> Map<
    u64,
    AllocationModel,
> {
    m.insert(start, reasoned(raised(entry_of(m, start)), thread_reason(tid, start)))
}

/// A region that is met again under its allocation adds nothing to the
/// size: whatever else was merged in between, a record with the base of an
/// earlier one leaves the size as it is.
pub proof fn lemma_region_counted_once(a: AllocationModel, e: MemoryInfoEntry)
    requires
        a.seen.contains(e.base_address),
    ensures
        absorbed(a, e).size == a.size,
        forall|f: MemoryInfoEntry| (#[trigger] absorbed(a, f)).seen.contains(e.base_address),
{
}

/// Two suspicious regions of one allocation that nothing was known of: the
/// allocation is on file once, with the sizes of both regions, or of the one
/// region if they have the same base, and with the flags of both.
pub proof fn lemma_two_regions_of_one_allocation(
    m: Map<u64, AllocationModel>,
    e: MemoryInfoEntry,
    f: MemoryInfoEntry,
)
    requires
        e.allocation_base == f.allocation_base,
        !m.dom().contains(e.allocation_base),
    ensures
        ({
            let after = note_metadata(note_metadata(m, e), f);
            let found = after[e.allocation_base];
            &&& after.dom() == m.dom().insert(e.allocation_base)
            &&& found.size == if e.base_address == f.base_address {
                e.region_size
            } else {
                capped_sum(e.region_size, f.region_size)
            }
            &&& found.prot_bits == e.protection | f.protection
            &&& found.ty_bits == e.ty | f.ty
            &&& found.state_bits == e.state | f.state
        }),
{
    let after = note_metadata(note_metadata(m, e), f);
    assert(after.dom() =~= m.dom().insert(e.allocation_base));
    assert(0u32 | e.protection == e.protection) by (bit_vector);
    assert(0u32 | e.ty == e.ty) by (bit_vector);
    assert(0u32 | e.state == e.state) by (bit_vector);
}

/// The accumulator of one allocation.
pub struct Allocation {
    pub base: u64,
    pub size: u64,
    pub prot_bits: u32,
    pub ty_bits: u32,
    pub state_bits: u32,
    pub reasons: Vec<String>,
    pub risk: Severity,
    /// Bases of the regions counted in `size`.
    pub seen_region_bases: HashSet<u64>,
}

impl Allocation {
    pub open spec fn model(&self) -> AllocationModel {
        AllocationModel {
            size: self.size,
            prot_bits: self.prot_bits,
            ty_bits: self.ty_bits,
            state_bits: self.state_bits,
            reasons: texts(self.reasons@),
            risk: self.risk,
            seen: self.seen_region_bases@,
        }
    }

    pub fn new(base: u64) -> (a: Allocation)
        ensures
            a.base == base,
            a.model() == fresh(),
    {
        let a = Allocation {
            base,
            size: 0,
            prot_bits: 0,
            ty_bits: 0,
            state_bits: 0,
            reasons: Vec::new(),
            risk: Severity::Warning,
            seen_region_bases: HashSet::new(),
        };
        assert(a.model() =~= fresh());
        a
    }
}

/// Adds a reason to those of an allocation, unless it is among them.
pub fn push_reason_once(reasons: &mut Vec<String>, reason: String)
    ensures
        texts(final(reasons)@) == with_text(texts(old(reasons)@), reason@),
{
    push_once(reasons, reason);
}

/// Merges the record `e` into the accumulator.
pub fn absorb(a: &mut Allocation, e: &MemoryInfoEntry)
    ensures
        final(a).base == old(a).base,
        final(a).model() == absorbed(old(a).model(), *e),
{
    if a.seen_region_bases.insert(e.base_address) {
        a.size = a.size.saturating_add(e.region_size);
    }
    a.prot_bits = a.prot_bits | e.protection;
    a.ty_bits = a.ty_bits | e.ty;
    a.state_bits = a.state_bits | e.state;
    assert(a.model() =~= absorbed(old(a).model(), *e));
}

/// Every accumulator of `m` is filed under its own base.
pub open spec fn filed_by_base(m: Map<u64, Allocation>) -> bool {
    forall|b: u64| m.dom().contains(b) ==> (#[trigger] m[b]).base == b
}

/// What the accumulators of `m` have gathered, by allocation base.
pub open spec fn models_of(m: Map<u64, Allocation>) -> Map<u64, AllocationModel> {
    Map::new(|b: u64| m.dom().contains(b), |b: u64| m[b].model())
}

/// Files a suspicious metadata record under its allocation.
pub fn note_metadata_entry(acc: &mut HashMap<u64, Allocation>, e: &MemoryInfoEntry)
    requires
        filed_by_base(old(acc)@),
    ensures
        filed_by_base(final(acc)@),
        final(acc)@.dom() == old(acc)@.dom().insert(e.allocation_base),
        models_of(final(acc)@) == note_metadata(models_of(old(acc)@), *e),
{
    let a = acc.entry(e.allocation_base).or_insert(Allocation::new(e.allocation_base));
    absorb(a, e);
    push_reason_once(
        &mut a.reasons,
        "committed private executable memory not backed by a module".to_owned(),
    );
    if is_rwx(e.protection) {
        a.risk = Severity::High;
        push_reason_once(&mut a.reasons, "RWX protection".to_owned());
    }
    proof {
        assert(acc@[e.allocation_base].model() =~= metadata_noted(
            entry_of(models_of(old(acc)@), e.allocation_base),
            *e,
        ));
        assert(acc@.dom() =~= old(acc)@.dom().insert(e.allocation_base));
        assert(models_of(acc@) =~= note_metadata(models_of(old(acc)@), *e));
    }
}

/// The text of [`thread_reason`].
pub fn thread_reason_text(tid: u32, start: u64) -> (r: String)
    ensures
        r@ == thread_reason(tid, start),
{
    let mut out: Vec<char> = Vec::new();
    push_str(&mut out, "thread start outside modules: tid=0x");
    push_hex(&mut out, tid as u64);
    push_str(&mut out, " start=0x");
    push_hex_padded(&mut out, start, 16, '0');
    assert(out@ =~= thread_reason(tid, start));
    string_of(out.as_slice())
}

/// Files a thread that starts at `start`, inside the metadata record `hit`,
/// under the allocation of `hit`.
pub fn note_thread_hit(acc: &mut HashMap<u64, Allocation>, hit: &MemoryInfoEntry, tid: u32, start: u64)
    requires
        filed_by_base(old(acc)@),
    ensures
        filed_by_base(final(acc)@),
        final(acc)@.dom() == old(acc)@.dom().insert(hit.allocation_base),
        models_of(final(acc)@) == note_thread(models_of(old(acc)@), *hit, tid, start),
{
    let a = acc.entry(hit.allocation_base).or_insert(Allocation::new(hit.allocation_base));
    absorb(a, hit);
    a.risk = Severity::High;
    push_reason_once(&mut a.reasons, thread_reason_text(tid, start));
    proof {
        assert(acc@[hit.allocation_base].model() =~= thread_noted(
            entry_of(models_of(old(acc)@), hit.allocation_base),
            *hit,
            tid,
            start,
        ));
        assert(acc@.dom() =~= old(acc)@.dom().insert(hit.allocation_base));
        assert(models_of(acc@) =~= note_thread(models_of(old(acc)@), *hit, tid, start));
    }
}

/// Files a recovered command line that stands inside the metadata record
/// `hit` under the allocation of `hit`.
pub fn note_artifact_hit(acc: &mut HashMap<u64, Allocation>, hit: &MemoryInfoEntry)
    requires
        filed_by_base(old(acc)@),
    ensures
        filed_by_base(final(acc)@),
        final(acc)@.dom() == old(acc)@.dom().insert(hit.allocation_base),
        models_of(final(acc)@) == note_artifact(models_of(old(acc)@), *hit),
{
    let a = acc.entry(hit.allocation_base).or_insert(Allocation::new(hit.allocation_base));
    absorb(a, hit);
    push_reason_once(
        &mut a.reasons,
        "recovered execution artifact string points into this allocation".to_owned(),
    );
    proof {
        assert(acc@[hit.allocation_base].model() =~= artifact_noted(
            entry_of(models_of(old(acc)@), hit.allocation_base),
            *hit,
        ));
        assert(acc@.dom() =~= old(acc)@.dom().insert(hit.allocation_base));
        assert(models_of(acc@) =~= note_artifact(models_of(old(acc)@), *hit));
    }
}

/// Files a thread that starts outside every module when the dump holds no
/// metadata.
pub fn note_thread_without_metadata(acc: &mut HashMap<u64, Allocation>, tid: u32, start: u64)
    requires
        filed_by_base(old(acc)@),
    ensures
        filed_by_base(final(acc)@),
        final(acc)@.dom() == old(acc)@.dom().insert(start),
        models_of(final(acc)@) == note_unmapped_thread(models_of(old(acc)@), tid, start),
{
    let a = acc.entry(start).or_insert(Allocation::new(start));
    a.risk = Severity::High;
    push_reason_once(&mut a.reasons, thread_reason_text(tid, start));
    proof {
        assert(acc@[start].model() =~= reasoned(
            raised(entry_of(models_of(old(acc)@), start)),
            thread_reason(tid, start),
        ));
        assert(acc@.dom() =~= old(acc)@.dom().insert(start));
        assert(models_of(acc@) =~= note_unmapped_thread(models_of(old(acc)@), tid, start));
    }
}

/// What the first `n` metadata records leave behind: each suspicious record
/// is filed under its allocation, in list order.
pub open spec fn metadata_pass(entries: Seq<MemoryInfoEntry>, ranges: Seq<(u64, u64)>, n: int) -> Map<
    u64,
    AllocationModel,
>
    decreases n,
{
    if n <= 0 {
        Map::empty()
    } else {
        let m = metadata_pass(entries, ranges, n - 1);
        if suspicious(entries[n - 1], ranges) {
            note_metadata(m, entries[n - 1])
        } else {
            m
        }
    }
}

/// A thread counts when its start address is known and lies outside every
/// module; it is filed under the allocation of the record that the metadata
/// list answers with for that address, if it answers with one.
pub open spec fn thread_step(
    m: Map<u64, AllocationModel>,
    t: ThreadInfo,
    entries: Seq<MemoryInfoEntry>,
    ranges: Seq<(u64, u64)>,
) -> Map<u64, AllocationModel> {
    match t.start_address {
        Some(start) => if in_any(ranges, start) {
            m
        } else {
            match covering_entry(entries, start) {
                Some(hit) => note_thread(m, hit, t.thread_id, start),
                None => m,
            }
        },
        None => m,
    }
}

pub open spec fn thread_pass(
    m: Map<u64, AllocationModel>,
    threads: Seq<ThreadInfo>,
    entries: Seq<MemoryInfoEntry>,
    ranges: Seq<(u64, u64)>,
    n: int,
) -> Map<u64, AllocationModel>
    decreases n,
{
    if n <= 0 {
        m
    } else {
        thread_step(thread_pass(m, threads, entries, ranges, n - 1), threads[n - 1], entries, ranges)
    }
}

/// A recovered command line counts when its address is known and lies
/// outside every module; it is filed like a thread, without raising the risk.
pub open spec fn artifact_step(
    m: Map<u64, AllocationModel>,
    a: ProcessExecArtifact,
    entries: Seq<MemoryInfoEntry>,
    ranges: Seq<(u64, u64)>,
) -> Map<u64, AllocationModel> {
    match a.address {
        Some(addr) => if in_any(ranges, addr) {
            m
        } else {
            match covering_entry(entries, addr) {
                Some(hit) => note_artifact(m, hit),
                None => m,
            }
        },
        None => m,
    }
}

pub open spec fn artifact_pass(
    m: Map<u64, AllocationModel>,
    artifacts: Seq<ProcessExecArtifact>,
    entries: Seq<MemoryInfoEntry>,
    ranges: Seq<(u64, u64)>,
    n: int,
) -> Map<u64, AllocationModel>
    decreases n,
{
    if n <= 0 {
        m
    } else {
        artifact_step(
            artifact_pass(m, artifacts, entries, ranges, n - 1),
            artifacts[n - 1],
            entries,
            ranges,
        )
    }
}

pub open spec fn unmapped_thread_step(
    m: Map<u64, AllocationModel>,
    t: ThreadInfo,
    ranges: Seq<(u64, u64)>,
) -> Map<u64, AllocationModel> {
    match t.start_address {
        Some(start) => if in_any(ranges, start) {
            m
        } else {
            note_unmapped_thread(m, t.thread_id, start)
        },
        None => m,
    }
}

/// What the first `n` threads leave behind when the dump holds no metadata.
pub open spec fn unmapped_thread_pass(threads: Seq<ThreadInfo>, ranges: Seq<(u64, u64)>, n: int) -> Map<
    u64,
    AllocationModel,
>
    decreases n,
{
    if n <= 0 {
        Map::empty()
    } else {
        unmapped_thread_step(unmapped_thread_pass(threads, ranges, n - 1), threads[n - 1], ranges)
    }
}

/// Everything gathered from a dump, by allocation base.  With metadata the
/// three passes run one after the other; without, only the threads are
/// looked at.
pub open spec fn gathered(
    entries: Option<Seq<MemoryInfoEntry>>,
    modules: Seq<ModuleInfo>,
    threads: Seq<ThreadInfo>,
    artifacts: Seq<ProcessExecArtifact>,
) -> Map<u64, AllocationModel> {
    let ranges = ranges_of(modules);
    match entries {
        Some(es) => artifact_pass(
            thread_pass(
                metadata_pass(es, ranges, es.len() as int),
                threads,
                es,
                ranges,
                threads.len() as int,
            ),
            artifacts,
            es,
            ranges,
            artifacts.len() as int,
        ),
        None => unmapped_thread_pass(threads, ranges, threads.len() as int),
    }
}

/// No more findings are made than there are records, threads and command
/// lines to make them from.
pub open spec fn finding_limit(entries: Option<Seq<MemoryInfoEntry>>, threads: nat, artifacts: nat) -> nat {
    match entries {
        Some(es) => es.len() + threads + artifacts,
        None => threads,
    }
}

/// The records of the list, if there is one.
pub open spec fn entries_of(meminfo: Option<&MinidumpMemoryInfoList<'_>>) -> Option<
    Seq<MemoryInfoEntry>,
> {
    match meminfo {
        Some(list) => Some(memory_info_entries(list)),
        None => None,
    }
}

fn gather_with_metadata(
    list: &MinidumpMemoryInfoList<'_>,
    ranges: &[(u64, u64)],
    threads: &[ThreadInfo],
    artifacts: &[ProcessExecArtifact],
) -> (acc: HashMap<u64, Allocation>)
    ensures
        filed_by_base(acc@),
        acc@.dom().len() <= memory_info_entries(list).len() + threads@.len() + artifacts@.len(),
        models_of(acc@) == artifact_pass(
            thread_pass(
                metadata_pass(
                    memory_info_entries(list),
                    ranges@,
                    memory_info_entries(list).len() as int,
                ),
                threads@,
                memory_info_entries(list),
                ranges@,
                threads@.len() as int,
            ),
            artifacts@,
            memory_info_entries(list),
            ranges@,
            artifacts@.len() as int,
        ),
{
    let entries = read_entries(list);
    let mut acc: HashMap<u64, Allocation> = HashMap::new();
    assert(models_of(acc@) =~= Map::<u64, AllocationModel>::empty());
    let mut i: usize = 0;
    while i < entries.len()
        invariant
            i <= entries.len(),
            filed_by_base(acc@),
            acc@.dom().len() <= i,
            models_of(acc@) == metadata_pass(entries@, ranges@, i as int),
        decreases entries.len() - i,
    {
        if is_suspicious(&entries[i], ranges) {
            note_metadata_entry(&mut acc, &entries[i]);
        }
        i += 1;
    }
    let ghost first = models_of(acc@);
    let mut j: usize = 0;
    while j < threads.len()
        invariant
            j <= threads.len(),
            filed_by_base(acc@),
            entries@ == memory_info_entries(list),
            acc@.dom().len() <= entries@.len() + j,
            models_of(acc@) == thread_pass(first, threads@, entries@, ranges@, j as int),
        decreases threads.len() - j,
    {
        let t = &threads[j];
        if let Some(start) = t.start_address {
            if !addr_in_any(ranges, start) {
                if let Some(hit) = entry_at(list, start) {
                    note_thread_hit(&mut acc, &hit, t.thread_id, start);
                }
            }
        }
        j += 1;
    }
    let ghost second = models_of(acc@);
    let mut k: usize = 0;
    while k < artifacts.len()
        invariant
            k <= artifacts.len(),
            filed_by_base(acc@),
            entries@ == memory_info_entries(list),
            acc@.dom().len() <= entries@.len() + threads@.len() + k,
            models_of(acc@) == artifact_pass(second, artifacts@, entries@, ranges@, k as int),
        decreases artifacts.len() - k,
    {
        if let Some(addr) = artifacts[k].address {
            if !addr_in_any(ranges, addr) {
                if let Some(hit) = entry_at(list, addr) {
                    note_artifact_hit(&mut acc, &hit);
                }
            }
        }
        k += 1;
    }
    acc
}

fn gather_without_metadata(ranges: &[(u64, u64)], threads: &[ThreadInfo]) -> (acc: HashMap<
    u64,
    Allocation,
>)
    ensures
        filed_by_base(acc@),
        acc@.dom().len() <= threads@.len(),
        models_of(acc@) == unmapped_thread_pass(threads@, ranges@, threads@.len() as int),
{
    let mut acc: HashMap<u64, Allocation> = HashMap::new();
    assert(models_of(acc@) =~= Map::<u64, AllocationModel>::empty());
    let mut j: usize = 0;
    while j < threads.len()
        invariant
            j <= threads.len(),
            filed_by_base(acc@),
            acc@.dom().len() <= j,
            models_of(acc@) == unmapped_thread_pass(threads@, ranges@, j as int),
        decreases threads.len() - j,
    {
        let t = &threads[j];
        if let Some(start) = t.start_address {
            if !addr_in_any(ranges, start) {
                note_thread_without_metadata(&mut acc, t.thread_id, start);
            }
        }
        j += 1;
    }
    acc
}

/// Some accumulator of `v` is for `base`.
pub open spec fn has_base(v: Seq<Allocation>, base: u64) -> bool {
    exists|i: int| 0 <= i < v.len() && (#[trigger] v[i]).base == base
}

/// No two accumulators of `v` are for the same allocation.
pub open spec fn distinct_bases(v: Seq<Allocation>) -> bool {
    forall|i: int, j: int| 0 <= i < j < v.len() ==> (#[trigger] v[i]).base != (#[trigger] v[j]).base
}

/// Position in `v` of an accumulator for `base`.
pub open spec fn slot_of(v: Seq<Allocation>, base: u64) -> int {
    choose|i: int| 0 <= i < v.len() && (#[trigger] v[i]).base == base
}

/// The mapping from allocation base to what was gathered, which a list of
/// accumulators with distinct bases stands for.
pub open spec fn as_map(v: Seq<Allocation>) -> Map<u64, AllocationModel> {
    Map::new(|b: u64| has_base(v, b), |b: u64| v[slot_of(v, b)].model())
}

pub proof fn lemma_as_map_at(v: Seq<Allocation>, i: int)
    requires
        distinct_bases(v),
        0 <= i < v.len(),
    ensures
        as_map(v).dom().contains(v[i].base),
        as_map(v)[v[i].base] == v[i].model(),
        slot_of(v, v[i].base) == i,
{
    let j = slot_of(v, v[i].base);
    assert(0 <= j < v.len() && v[j].base == v[i].base);
    if j < i {
        assert(v[j].base != v[i].base);
    }
    if i < j {
        assert(v[i].base != v[j].base);
    }
}

/// The bases under which the accumulators are filed, each once, in the order
/// in which the map hands them out.
fn bases_of(acc: &HashMap<u64, Allocation>) -> (bases: Vec<u64>)
    ensures
        bases@.no_duplicates(),
        bases@.to_set() == acc@.dom(),
        bases@.len() == acc@.dom().len(),
{
    let mut bases: Vec<u64> = Vec::new();
    for b in it: acc.keys()
        invariant
            bases@ == it.history().unref(),
    {
        bases.push(*b);
    }
    assert(bases@ == spec_keys_iter(acc).remaining().unref());
    bases
}

/// The accumulators of the map as a list, in the order in which the map
/// hands them out.
pub fn into_list(acc: HashMap<u64, Allocation>) -> (out: Vec<Allocation>)
    requires
        filed_by_base(acc@),
    ensures
        distinct_bases(out@),
        as_map(out@) == models_of(acc@),
        out@.len() == acc@.dom().len(),
{
    let bases = bases_of(&acc);
    let ghost all = acc@;
    let mut acc = acc;
    let mut out: Vec<Allocation> = Vec::new();
    let mut i: usize = 0;
    while i < bases.len()
        invariant
            i <= bases.len(),
            bases@.no_duplicates(),
            out@.len() == i,
            forall|k: int| 0 <= k < i ==> #[trigger] out@[k] == all[bases@[k]],
            forall|k: int|
                i <= k < bases@.len() ==> acc@.dom().contains(#[trigger] bases@[k]) && acc@[bases@[k]]
                    == all[bases@[k]],
        decreases bases.len() - i,
    {
        let found = acc.remove(&bases[i]);
        assert(found == Some(all[bases@[i as int]]));
        out.push(found.unwrap());
        i += 1;
    }
    proof {
        assert forall|k: int| 0 <= k < out@.len() implies (#[trigger] out@[k]).base
            == bases@[k] by {
            assert(bases@.to_set().contains(bases@[k]));
        }
        assert forall|b: u64| has_base(out@, b) <==> all.dom().contains(b) by {
            if has_base(out@, b) {
                let k = choose|k: int| 0 <= k < out@.len() && (#[trigger] out@[k]).base == b;
                assert(bases@.to_set().contains(bases@[k]));
            }
            if all.dom().contains(b) {
                assert(bases@.to_set().contains(b));
                let k = choose|k: int| 0 <= k < bases@.len() && bases@[k] == b;
                assert(out@[k].base == b);
            }
        }
        assert forall|b: u64| has_base(out@, b) implies #[trigger] as_map(out@)[b] == models_of(
            all,
        )[b] by {
            let k = slot_of(out@, b);
            lemma_as_map_at(out@, k);
        }
        assert(as_map(out@) =~= models_of(all));
    }
    out
}

/// Ranking of the findings: lower risk rank first, then larger size, then
/// lower base.
pub open spec fn ranks_before(
    risk_a: Severity,
    size_a: u64,
    base_a: u64,
    risk_b: Severity,
    size_b: u64,
    base_b: u64,
) -> bool {
    ||| risk_a.rank() < risk_b.rank()
    ||| risk_a.rank() == risk_b.rank() && size_a > size_b
    ||| risk_a.rank() == risk_b.rank() && size_a == size_b && base_a < base_b
}

impl Allocation {
    pub open spec fn before(&self, other: &Allocation) -> bool {
        ranks_before(self.risk, self.size, self.base, other.risk, other.size, other.base)
    }

    pub fn goes_before(&self, other: &Allocation) -> (r: bool)
        ensures
            r == self.before(other),
    {
        let a = risk_rank(self.risk);
        let b = risk_rank(other.risk);
        a < b || (a == b && self.size > other.size) || (a == b && self.size == other.size
            && self.base < other.base)
    }
}

/// Every accumulator ranks before those that follow it.
pub open spec fn ranked(v: Seq<Allocation>) -> bool {
    forall|i: int, j: int| #![trigger v[i], v[j]] 0 <= i < j < v.len() ==> v[i].before(&v[j])
}

proof fn lemma_same_allocations(v: Seq<Allocation>, w: Seq<Allocation>)
    requires
        distinct_bases(v),
        distinct_bases(w),
        forall|i: int| 0 <= i < v.len() ==> w.contains(#[trigger] v[i]),
        forall|j: int| 0 <= j < w.len() ==> v.contains(#[trigger] w[j]),
    ensures
        as_map(v) == as_map(w),
{
    assert forall|b: u64| has_base(v, b) <==> has_base(w, b) by {
        if has_base(v, b) {
            let i = choose|i: int| 0 <= i < v.len() && (#[trigger] v[i]).base == b;
            assert(w.contains(v[i]));
            let j = choose|j: int| 0 <= j < w.len() && w[j] == v[i];
            assert(w[j].base == b);
        }
        if has_base(w, b) {
            let j = choose|j: int| 0 <= j < w.len() && (#[trigger] w[j]).base == b;
            assert(v.contains(w[j]));
            let i = choose|i: int| 0 <= i < v.len() && v[i] == w[j];
            assert(v[i].base == b);
        }
    }
    assert forall|b: u64| has_base(v, b) implies #[trigger] as_map(v)[b] == as_map(w)[b] by {
        let i = slot_of(v, b);
        lemma_as_map_at(v, i);
        assert(w.contains(v[i]));
        let j = choose|j: int| 0 <= j < w.len() && w[j] == v[i];
        lemma_as_map_at(w, j);
    }
    assert(as_map(v) =~= as_map(w));
}

/// The accumulators in ranking order.
pub fn sort_by_rank(acc: Vec<Allocation>) -> (out: Vec<Allocation>)
    requires
        distinct_bases(acc@),
    ensures
        distinct_bases(out@),
        as_map(out@) == as_map(acc@),
        ranked(out@),
        out@.len() == acc@.len(),
{
    let ghost all = acc@;
    let mut rest = acc;
    let mut out: Vec<Allocation> = Vec::new();
    let ghost mut origin: Seq<int> = Seq::empty();
    while rest.len() > 0
        invariant
            distinct_bases(all),
            rest@ == all.take(rest@.len() as int),
            rest@.len() <= all.len(),
            origin.len() == out@.len(),
            out@.len() + rest@.len() == all.len(),
            forall|i: int|
                0 <= i < out@.len() ==> rest@.len() <= #[trigger] origin[i] < all.len() && out@[i]
                    == all[origin[i]],
            forall|k: int| rest@.len() <= k < all.len() ==> #[trigger] origin.contains(k),
            ranked(out@),
        decreases rest.len(),
    {
        let ghost n = rest@.len() as int;
        let a = rest.pop().unwrap();
        assert(a == all[n - 1]);
        let mut p: usize = 0;
        while p < out.len() && !a.goes_before(&out[p])
            invariant
                p <= out.len(),
                forall|i: int| 0 <= i < p ==> !a.before(&#[trigger] out@[i]),
            decreases out.len() - p,
        {
            p += 1;
        }
        let ghost before = out@;
        let ghost before_origin = origin;
        out.insert(p, a);
        proof {
            origin = origin.insert(p as int, n - 1);
            assert forall|i: int| 0 <= i < out@.len() implies rest@.len() <= #[trigger] origin[i]
                < all.len() && out@[i] == all[origin[i]] by {
                if i < p {
                    assert(out@[i] == before[i]);
                    assert(origin[i] == before_origin[i]);
                } else if i > p {
                    assert(out@[i] == before[i - 1]);
                    assert(origin[i] == before_origin[i - 1]);
                }
            }
            assert forall|k: int| rest@.len() <= k < all.len() implies #[trigger] origin.contains(
                k,
            ) by {
                if k == n - 1 {
                    assert(origin[p as int] == k);
                } else {
                    assert(before_origin.contains(k));
                    let i = choose|i: int| 0 <= i < before_origin.len() && before_origin[i] == k;
                    if i < p {
                        assert(origin[i] == k);
                    } else {
                        assert(origin[i + 1] == k);
                    }
                }
            }
            assert forall|i: int, j: int| #![trigger out@[i], out@[j]] 0 <= i < j < out@.len() implies out@[i].before(
                &out@[j],
            ) by {
                if j < p {
                    assert(out@[i] == before[i] && out@[j] == before[j]);
                } else if i > p {
                    assert(out@[i] == before[i - 1] && out@[j] == before[j - 1]);
                } else if i == p {
                    assert(out@[j] == before[j - 1]);
                    assert(a.before(&before[p as int]));
                    if j - 1 > p {
                        assert(before[p as int].before(&before[j - 1]));
                    }
                } else if j == p {
                    assert(out@[i] == before[i]);
                    assert(!a.before(&before[i]));
                    assert(before[i] == all[before_origin[i]]);
                    assert(all[n - 1].base != all[before_origin[i]].base);
                } else {
                    assert(out@[i] == before[i] && out@[j] == before[j - 1]);
                }
            }
        }
    }
    proof {
        assert forall|i: int, j: int| 0 <= i < j < out@.len() implies (#[trigger] out@[i]).base != (
        #[trigger] out@[j]).base by {
            assert(out@[i].before(&out@[j]));
            assert(out@[i] == all[origin[i]] && out@[j] == all[origin[j]]);
            if origin[i] == origin[j] {
                assert(out@[i] == out@[j]);
            } else if origin[i] < origin[j] {
                assert(all[origin[i]].base != all[origin[j]].base);
            } else {
                assert(all[origin[j]].base != all[origin[i]].base);
            }
        }
        assert forall|i: int| 0 <= i < all.len() implies out@.contains(#[trigger] all[i]) by {
            assert(origin.contains(i));
            let j = choose|j: int| 0 <= j < origin.len() && origin[j] == i;
            assert(out@[j] == all[i]);
        }
        assert forall|j: int| 0 <= j < out@.len() implies all.contains(#[trigger] out@[j]) by {
            assert(all[origin[j]] == out@[j]);
        }
        lemma_same_allocations(all, out@);
    }
    out
}

/// The text that the `minidump` crate gives for a set of protection flags.
pub uninterp spec fn protection_flags_text(bits: u32) -> Seq<char>;

/// The text that the `minidump` crate gives for a set of memory type flags.
pub uninterp spec fn type_flags_text(bits: u32) -> Seq<char>;

/// The text that the `minidump` crate gives for a set of memory state flags.
pub uninterp spec fn state_flags_text(bits: u32) -> Seq<char>;

/// `Debug` text of `minidump::format::MemoryProtection`, made of the known
/// flags among `bits`.
#[verifier::external_body]
fn protection_text(bits: u32) -> (s: String)
    ensures
        s@ == protection_flags_text(bits),
{
    format!("{:?}", minidump::format::MemoryProtection::from_bits_truncate(bits))
}

/// `Debug` text of `minidump::format::MemoryType`, made of the known flags
/// among `bits`.
#[verifier::external_body]
fn type_text(bits: u32) -> (s: String)
    ensures
        s@ == type_flags_text(bits),
{
    format!("{:?}", minidump::format::MemoryType::from_bits_truncate(bits))
}

/// `Debug` text of `minidump::format::MemoryState`, made of the known flags
/// among `bits`.
#[verifier::external_body]
fn state_text(bits: u32) -> (s: String)
    ensures
        s@ == state_flags_text(bits),
{
    format!("{:?}", minidump::format::MemoryState::from_bits_truncate(bits))
}

pub open spec fn unknown_protection() -> Seq<char> {
    "unknown (MemoryInfoListStream missing)"@
}

pub open spec fn unknown_flags() -> Seq<char> {
    "unknown"@
}

/// The finding reported for the allocation at `base`.  Where the dump holds
/// no metadata (`known` is false) the flags are reported as unknown.
pub open spec fn rendered(base: u64, a: AllocationModel, known: bool) -> InjectedRegionView {
    InjectedRegionView {
        base,
        size: a.size,
        protection: if known {
            protection_flags_text(a.prot_bits)
        } else {
            unknown_protection()
        },
        ty: if known {
            type_flags_text(a.ty_bits)
        } else {
            unknown_flags()
        },
        state: if known {
            state_flags_text(a.state_bits)
        } else {
            unknown_flags()
        },
        reasons: a.reasons,
        risk: a.risk,
    }
}

pub open spec fn region_before(a: InjectedRegionView, b: InjectedRegionView) -> bool {
    ranks_before(a.risk, a.size, a.base, b.risk, b.size, b.base)
}

/// `out` lists the allocations of `m`, each once, in ranking order.
pub open spec fn lists_allocations(
    out: Seq<InjectedRegionView>,
    m: Map<u64, AllocationModel>,
    known: bool,
) -> bool {
    &&& forall|i: int|
        0 <= i < out.len() ==> m.dom().contains((#[trigger] out[i]).base) && out[i] == rendered(
            out[i].base,
            m[out[i].base],
            known,
        )
    &&& forall|b: u64| #[trigger]
        m.dom().contains(b) ==> exists|i: int| 0 <= i < out.len() && (#[trigger] out[i]).base == b
    &&& forall|i: int, j: int|
        #![trigger out[i], out[j]]
        0 <= i < j < out.len() ==> region_before(out[i], out[j])
}

/// The finding for an accumulator, given the texts of its flags.
pub fn region_of(a: Allocation, protection: String, ty: String, state: String) -> (r: InjectedRegion)
    ensures
        r.deep_view() == (InjectedRegionView {
            base: a.base,
            size: a.size,
            protection: protection@,
            ty: ty@,
            state: state@,
            reasons: a.model().reasons,
            risk: a.risk,
        }),
{
    let r = InjectedRegion {
        base: a.base,
        size: a.size,
        protection,
        ty,
        state,
        reasons: a.reasons,
        risk: a.risk,
    };
    assert(r.reasons.deep_view() =~= texts(a.reasons@));
    r
}

fn render_one(a: Allocation, known: bool) -> (r: InjectedRegion)
    ensures
        r.deep_view() == rendered(a.base, a.model(), known),
{
    if known {
        let protection = protection_text(a.prot_bits);
        let ty = type_text(a.ty_bits);
        let state = state_text(a.state_bits);
        region_of(a, protection, ty, state)
    } else {
        region_of(
            a,
            "unknown (MemoryInfoListStream missing)".to_owned(),
            "unknown".to_owned(),
            "unknown".to_owned(),
        )
    }
}

fn render_all(sorted: Vec<Allocation>, known: bool) -> (out: Vec<InjectedRegion>)
    requires
        distinct_bases(sorted@),
        ranked(sorted@),
    ensures
        lists_allocations(out.deep_view(), as_map(sorted@), known),
        out@.len() == sorted@.len(),
{
    let ghost all = sorted@;
    let mut out: Vec<InjectedRegion> = Vec::new();
    for a in it: sorted
        invariant
            it.seq() == all,
            out@.len() == it.index(),
            forall|k: int|
                0 <= k < it.index() ==> (#[trigger] out@[k]).deep_view() == rendered(
                    all[k].base,
                    all[k].model(),
                    known,
                ),
    {
        let r = render_one(a, known);
        out.push(r);
    }
    proof {
        let views = out.deep_view();
        let m = as_map(all);
        assert forall|i: int| 0 <= i < views.len() implies m.dom().contains(
            (#[trigger] views[i]).base,
        ) && views[i] == rendered(views[i].base, m[views[i].base], known) by {
            assert(views[i] == out@[i].deep_view());
            lemma_as_map_at(all, i);
        }
        assert forall|b: u64| #[trigger] m.dom().contains(b) implies exists|i: int|
            0 <= i < views.len() && (#[trigger] views[i]).base == b by {
            let i = slot_of(all, b);
            assert(views[i] == out@[i].deep_view());
        }
        assert forall|i: int, j: int|
            #![trigger views[i], views[j]]
            0 <= i < j < views.len() implies region_before(views[i], views[j]) by {
            assert(views[i] == out@[i].deep_view());
            assert(views[j] == out@[j].deep_view());
            assert(all[i].before(&all[j]));
        }
    }
    out
}

/// Finds the allocations that look like injected code.
///
/// With the memory-protection metadata of the dump, every committed, private,
/// executable region outside the modules is filed under its allocation; so is
/// every thread that starts outside the modules and every recovered command
/// line that stands outside them, when the metadata knows the address.
/// Without the metadata, each start address outside the modules is reported
/// on its own.  The findings come ranked: by risk, then by size, larger
/// first, then by base.
pub fn detect_injected_regions(
    meminfo: Option<&MinidumpMemoryInfoList<'_>>,
    modules: &[ModuleInfo],
    threads: &[ThreadInfo],
    exec_artifacts: &[ProcessExecArtifact],
) -> (out: Vec<InjectedRegion>)
    ensures
        lists_allocations(
            out.deep_view(),
            gathered(entries_of(meminfo), modules@, threads@, exec_artifacts@),
            meminfo is Some,
        ),
        out@.len() <= finding_limit(entries_of(meminfo), threads@.len(), exec_artifacts@.len()),
{
    let ranges = module_ranges(modules);
    match meminfo {
        Some(list) => {
            let acc = gather_with_metadata(list, ranges.as_slice(), threads, exec_artifacts);
            render_all(sort_by_rank(into_list(acc)), true)
        },
        None => {
            let acc = gather_without_metadata(ranges.as_slice(), threads);
            render_all(sort_by_rank(into_list(acc)), false)
        },
    }
}

/// The allocation at `base` is on file with the reason `reason`, and at high
/// risk if `high`.
pub open spec fn on_file(m: Map<u64, AllocationModel>, base: u64, reason: Seq<char>, high: bool) -> bool {
    &&& m.dom().contains(base)
    &&& m[base].reasons.contains(reason)
    &&& high ==> m[base].risk == Severity::High
}

proof fn lemma_with_text_keeps(reasons: Seq<Seq<char>>, added: Seq<char>, kept: Seq<char>)
    ensures
        with_text(reasons, added).contains(added),
        reasons.contains(kept) ==> with_text(reasons, added).contains(kept),
{
    let after = with_text(reasons, added);
    if !reasons.contains(added) {
        assert(after[reasons.len() as int] == added);
    }
    if reasons.contains(kept) {
        let k = choose|k: int| 0 <= k < reasons.len() && reasons[k] == kept;
        assert(after[k] == kept);
    }
}

/// What is on file stays on file, whatever is noted afterwards.
proof fn lemma_steps_keep_on_file(
    m: Map<u64, AllocationModel>,
    e: MemoryInfoEntry,
    tid: u32,
    start: u64,
    base: u64,
    reason: Seq<char>,
    high: bool,
)
    requires
        on_file(m, base, reason, high),
    ensures
        on_file(note_metadata(m, e), base, reason, high),
        on_file(note_thread(m, e, tid, start), base, reason, high),
        on_file(note_artifact(m, e), base, reason, high),
        on_file(note_unmapped_thread(m, tid, start), base, reason, high),
{
    let a = entry_of(m, e.allocation_base);
    let b = reasoned(absorbed(a, e), unbacked_reason());
    lemma_with_text_keeps(absorbed(a, e).reasons, unbacked_reason(), reason);
    lemma_with_text_keeps(raised(b).reasons, rwx_reason(), reason);
    lemma_with_text_keeps(raised(absorbed(a, e)).reasons, thread_reason(tid, start), reason);
    lemma_with_text_keeps(absorbed(a, e).reasons, artifact_reason(), reason);
    lemma_with_text_keeps(raised(entry_of(m, start)).reasons, thread_reason(tid, start), reason);
}

/// What each step puts on file.
proof fn lemma_steps_put_on_file(m: Map<u64, AllocationModel>, e: MemoryInfoEntry, tid: u32, start: u64)
    ensures
        on_file(note_metadata(m, e), e.allocation_base, unbacked_reason(), false),
        rwx_bits(e.protection) ==> on_file(
            note_metadata(m, e),
            e.allocation_base,
            rwx_reason(),
            true,
        ),
        on_file(note_thread(m, e, tid, start), e.allocation_base, thread_reason(tid, start), true),
        on_file(note_artifact(m, e), e.allocation_base, artifact_reason(), false),
        on_file(note_unmapped_thread(m, tid, start), start, thread_reason(tid, start), true),
{
    let a = entry_of(m, e.allocation_base);
    let b = reasoned(absorbed(a, e), unbacked_reason());
    lemma_with_text_keeps(absorbed(a, e).reasons, unbacked_reason(), unbacked_reason());
    lemma_with_text_keeps(raised(b).reasons, rwx_reason(), unbacked_reason());
    lemma_with_text_keeps(raised(b).reasons, rwx_reason(), rwx_reason());
    lemma_with_text_keeps(
        raised(absorbed(a, e)).reasons,
        thread_reason(tid, start),
        thread_reason(tid, start),
    );
    lemma_with_text_keeps(absorbed(a, e).reasons, artifact_reason(), artifact_reason());
    lemma_with_text_keeps(
        raised(entry_of(m, start)).reasons,
        thread_reason(tid, start),
        thread_reason(tid, start),
    );
}

proof fn lemma_metadata_pass_keeps_on_file(
    entries: Seq<MemoryInfoEntry>,
    ranges: Seq<(u64, u64)>,
    from: int,
    n: int,
    base: u64,
    reason: Seq<char>,
    high: bool,
)
    requires
        0 <= from <= n,
        on_file(metadata_pass(entries, ranges, from), base, reason, high),
    ensures
        on_file(metadata_pass(entries, ranges, n), base, reason, high),
    decreases n - from,
{
    if from < n {
        lemma_metadata_pass_keeps_on_file(entries, ranges, from, n - 1, base, reason, high);
        lemma_steps_keep_on_file(
            metadata_pass(entries, ranges, n - 1),
            entries[n - 1],
            0,
            0,
            base,
            reason,
            high,
        );
    }
}

proof fn lemma_thread_pass_keeps_on_file(
    m: Map<u64, AllocationModel>,
    threads: Seq<ThreadInfo>,
    entries: Seq<MemoryInfoEntry>,
    ranges: Seq<(u64, u64)>,
    from: int,
    n: int,
    base: u64,
    reason: Seq<char>,
    high: bool,
)
    requires
        0 <= from <= n,
        on_file(thread_pass(m, threads, entries, ranges, from), base, reason, high),
    ensures
        on_file(thread_pass(m, threads, entries, ranges, n), base, reason, high),
    decreases n - from,
{
    if from < n {
        lemma_thread_pass_keeps_on_file(m, threads, entries, ranges, from, n - 1, base, reason, high);
        let before = thread_pass(m, threads, entries, ranges, n - 1);
        let t = threads[n - 1];
        if let Some(start) = t.start_address {
            if let Some(hit) = covering_entry(entries, start) {
                lemma_steps_keep_on_file(before, hit, t.thread_id, start, base, reason, high);
            }
        }
    }
}

proof fn lemma_artifact_pass_keeps_on_file(
    m: Map<u64, AllocationModel>,
    artifacts: Seq<ProcessExecArtifact>,
    entries: Seq<MemoryInfoEntry>,
    ranges: Seq<(u64, u64)>,
    from: int,
    n: int,
    base: u64,
    reason: Seq<char>,
    high: bool,
)
    requires
        0 <= from <= n,
        on_file(artifact_pass(m, artifacts, entries, ranges, from), base, reason, high),
    ensures
        on_file(artifact_pass(m, artifacts, entries, ranges, n), base, reason, high),
    decreases n - from,
{
    if from < n {
        lemma_artifact_pass_keeps_on_file(
            m,
            artifacts,
            entries,
            ranges,
            from,
            n - 1,
            base,
            reason,
            high,
        );
        let before = artifact_pass(m, artifacts, entries, ranges, n - 1);
        if let Some(addr) = artifacts[n - 1].address {
            if let Some(hit) = covering_entry(entries, addr) {
                lemma_steps_keep_on_file(before, hit, 0, 0, base, reason, high);
            }
        }
    }
}

proof fn lemma_unmapped_pass_keeps_on_file(
    threads: Seq<ThreadInfo>,
    ranges: Seq<(u64, u64)>,
    from: int,
    n: int,
    base: u64,
    reason: Seq<char>,
    high: bool,
)
    requires
        0 <= from <= n,
        on_file(unmapped_thread_pass(threads, ranges, from), base, reason, high),
    ensures
        on_file(unmapped_thread_pass(threads, ranges, n), base, reason, high),
    decreases n - from,
{
    if from < n {
        lemma_unmapped_pass_keeps_on_file(threads, ranges, from, n - 1, base, reason, high);
        let before = unmapped_thread_pass(threads, ranges, n - 1);
        let t = threads[n - 1];
        if let Some(start) = t.start_address {
            let any = MemoryInfoEntry {
                base_address: 0,
                allocation_base: 0,
                region_size: 0,
                protection: 0,
                ty: 0,
                state: 0,
            };
            lemma_steps_keep_on_file(before, any, t.thread_id, start, base, reason, high);
        }
    }
}

/// What is on file is found among the findings, once.
proof fn lemma_on_file_is_listed(
    out: Seq<InjectedRegionView>,
    m: Map<u64, AllocationModel>,
    known: bool,
    base: u64,
    reason: Seq<char>,
    high: bool,
)
    requires
        lists_allocations(out, m, known),
        on_file(m, base, reason, high),
    ensures
        reported(out, base, reason, high),
{
    let i = choose|i: int| 0 <= i < out.len() && (#[trigger] out[i]).base == base;
    assert(out[i] == rendered(base, m[base], known));
    assert(the_only_one_for(out, base, i)) by {
        assert forall|j: int| 0 <= j < out.len() && j != i implies (#[trigger] out[j]).base
            != base by {
            if j < i {
                assert(region_before(out[j], out[i]));
                assert(out[j] == rendered(out[j].base, m[out[j].base], known));
            } else {
                assert(region_before(out[i], out[j]));
                assert(out[j] == rendered(out[j].base, m[out[j].base], known));
            }
        }
    }
    assert(reported_at(out, base, reason, high, i));
}

/// The finding at `i` is the only one for the allocation at `base`.
pub open spec fn the_only_one_for(out: Seq<InjectedRegionView>, base: u64, i: int) -> bool {
    &&& 0 <= i < out.len()
    &&& out[i].base == base
    &&& forall|j: int| 0 <= j < out.len() && j != i ==> (#[trigger] out[j]).base != base
}

/// The finding at `i` is the only one for the allocation at `base`; it gives
/// the reason `reason` and is, if `high`, of high risk.
pub open spec fn reported_at(
    out: Seq<InjectedRegionView>,
    base: u64,
    reason: Seq<char>,
    high: bool,
    i: int,
) -> bool {
    &&& the_only_one_for(out, base, i)
    &&& out[i].reasons.contains(reason)
    &&& high ==> out[i].risk == Severity::High
}

/// Exactly one of the findings is for the allocation at `base`; it gives the
/// reason `reason` and is, if `high`, of high risk.
pub open spec fn reported(out: Seq<InjectedRegionView>, base: u64, reason: Seq<char>, high: bool) -> bool {
    exists|i: int| reported_at(out, base, reason, high, i)
}

/// No allocation is listed twice.
pub proof fn lemma_listed_once(out: Seq<InjectedRegionView>, m: Map<u64, AllocationModel>, known: bool)
    requires
        lists_allocations(out, m, known),
    ensures
        forall|i: int, j: int|
            #![trigger out[i], out[j]]
            0 <= i < out.len() && 0 <= j < out.len() && i != j ==> out[i].base != out[j].base,
{
    assert forall|i: int, j: int|
        #![trigger out[i], out[j]]
        0 <= i < out.len() && 0 <= j < out.len() && i != j implies out[i].base != out[j].base by {
        if i < j {
            assert(region_before(out[i], out[j]));
        } else {
            assert(region_before(out[j], out[i]));
        }
    }
}

/// A committed, private, read-write-execute region outside every module
/// yields exactly one finding for its allocation; that finding is of high
/// risk and names the read-write-execute protection among its reasons.
pub proof fn lemma_rwx_region_is_reported(
    entries: Seq<MemoryInfoEntry>,
    modules: Seq<ModuleInfo>,
    threads: Seq<ThreadInfo>,
    artifacts: Seq<ProcessExecArtifact>,
    out: Seq<InjectedRegionView>,
    k: int,
)
    requires
        0 <= k < entries.len(),
        suspicious(entries[k], ranges_of(modules)),
        rwx_bits(entries[k].protection),
        lists_allocations(out, gathered(Some(entries), modules, threads, artifacts), true),
    ensures
        reported(out, entries[k].allocation_base, rwx_reason(), true),
{
    let ranges = ranges_of(modules);
    let base = entries[k].allocation_base;
    lemma_steps_put_on_file(metadata_pass(entries, ranges, k), entries[k], 0, 0);
    lemma_metadata_pass_keeps_on_file(
        entries,
        ranges,
        k + 1,
        entries.len() as int,
        base,
        rwx_reason(),
        true,
    );
    let first = metadata_pass(entries, ranges, entries.len() as int);
    lemma_thread_pass_keeps_on_file(
        first,
        threads,
        entries,
        ranges,
        0,
        threads.len() as int,
        base,
        rwx_reason(),
        true,
    );
    let second = thread_pass(first, threads, entries, ranges, threads.len() as int);
    lemma_artifact_pass_keeps_on_file(
        second,
        artifacts,
        entries,
        ranges,
        0,
        artifacts.len() as int,
        base,
        rwx_reason(),
        true,
    );
    lemma_on_file_is_listed(
        out,
        gathered(Some(entries), modules, threads, artifacts),
        true,
        base,
        rwx_reason(),
        true,
    );
}

/// Every committed, private, executable region outside the modules yields
/// exactly one finding for its allocation, which says that no module backs
/// the memory.
pub proof fn lemma_suspicious_region_is_reported(
    entries: Seq<MemoryInfoEntry>,
    modules: Seq<ModuleInfo>,
    threads: Seq<ThreadInfo>,
    artifacts: Seq<ProcessExecArtifact>,
    out: Seq<InjectedRegionView>,
    k: int,
)
    requires
        0 <= k < entries.len(),
        suspicious(entries[k], ranges_of(modules)),
        lists_allocations(out, gathered(Some(entries), modules, threads, artifacts), true),
    ensures
        reported(out, entries[k].allocation_base, unbacked_reason(), false),
{
    let ranges = ranges_of(modules);
    let base = entries[k].allocation_base;
    lemma_steps_put_on_file(metadata_pass(entries, ranges, k), entries[k], 0, 0);
    lemma_metadata_pass_keeps_on_file(
        entries,
        ranges,
        k + 1,
        entries.len() as int,
        base,
        unbacked_reason(),
        false,
    );
    let first = metadata_pass(entries, ranges, entries.len() as int);
    lemma_thread_pass_keeps_on_file(
        first,
        threads,
        entries,
        ranges,
        0,
        threads.len() as int,
        base,
        unbacked_reason(),
        false,
    );
    let second = thread_pass(first, threads, entries, ranges, threads.len() as int);
    lemma_artifact_pass_keeps_on_file(
        second,
        artifacts,
        entries,
        ranges,
        0,
        artifacts.len() as int,
        base,
        unbacked_reason(),
        false,
    );
    lemma_on_file_is_listed(
        out,
        gathered(Some(entries), modules, threads, artifacts),
        true,
        base,
        unbacked_reason(),
        false,
    );
}

/// A thread that starts outside every module, at an address for which the
/// metadata list answers with a record, yields exactly one finding for the
/// allocation of that record; the finding is of high risk and names the
/// thread and its start address.
pub proof fn lemma_thread_outside_modules_is_reported(
    entries: Seq<MemoryInfoEntry>,
    modules: Seq<ModuleInfo>,
    threads: Seq<ThreadInfo>,
    artifacts: Seq<ProcessExecArtifact>,
    out: Seq<InjectedRegionView>,
    k: int,
)
    requires
        0 <= k < threads.len(),
        threads[k].start_address is Some,
        !in_any(ranges_of(modules), threads[k].start_address->0),
        covering_entry(entries, threads[k].start_address->0) is Some,
        lists_allocations(out, gathered(Some(entries), modules, threads, artifacts), true),
    ensures
        reported(
            out,
            covering_entry(entries, threads[k].start_address->0)->0.allocation_base,
            thread_reason(threads[k].thread_id, threads[k].start_address->0),
            true,
        ),
{
    let ranges = ranges_of(modules);
    let start = threads[k].start_address->0;
    let hit = covering_entry(entries, start)->0;
    let reason = thread_reason(threads[k].thread_id, start);
    let first = metadata_pass(entries, ranges, entries.len() as int);
    lemma_steps_put_on_file(
        thread_pass(first, threads, entries, ranges, k),
        hit,
        threads[k].thread_id,
        start,
    );
    lemma_thread_pass_keeps_on_file(
        first,
        threads,
        entries,
        ranges,
        k + 1,
        threads.len() as int,
        hit.allocation_base,
        reason,
        true,
    );
    let second = thread_pass(first, threads, entries, ranges, threads.len() as int);
    lemma_artifact_pass_keeps_on_file(
        second,
        artifacts,
        entries,
        ranges,
        0,
        artifacts.len() as int,
        hit.allocation_base,
        reason,
        true,
    );
    lemma_on_file_is_listed(
        out,
        gathered(Some(entries), modules, threads, artifacts),
        true,
        hit.allocation_base,
        reason,
        true,
    );
}

/// A recovered command line that stands outside every module, at an address
/// for which the metadata list answers with a record, yields exactly one
/// finding for the allocation of that record, which says that a command line
/// points into it.
pub proof fn lemma_artifact_outside_modules_is_reported(
    entries: Seq<MemoryInfoEntry>,
    modules: Seq<ModuleInfo>,
    threads: Seq<ThreadInfo>,
    artifacts: Seq<ProcessExecArtifact>,
    out: Seq<InjectedRegionView>,
    k: int,
)
    requires
        0 <= k < artifacts.len(),
        artifacts[k].address is Some,
        !in_any(ranges_of(modules), artifacts[k].address->0),
        covering_entry(entries, artifacts[k].address->0) is Some,
        lists_allocations(out, gathered(Some(entries), modules, threads, artifacts), true),
    ensures
        reported(
            out,
            covering_entry(entries, artifacts[k].address->0)->0.allocation_base,
            artifact_reason(),
            false,
        ),
{
    let ranges = ranges_of(modules);
    let hit = covering_entry(entries, artifacts[k].address->0)->0;
    let first = metadata_pass(entries, ranges, entries.len() as int);
    let second = thread_pass(first, threads, entries, ranges, threads.len() as int);
    lemma_steps_put_on_file(artifact_pass(second, artifacts, entries, ranges, k), hit, 0, 0);
    lemma_artifact_pass_keeps_on_file(
        second,
        artifacts,
        entries,
        ranges,
        k + 1,
        artifacts.len() as int,
        hit.allocation_base,
        artifact_reason(),
        false,
    );
    lemma_on_file_is_listed(
        out,
        gathered(Some(entries), modules, threads, artifacts),
        true,
        hit.allocation_base,
        artifact_reason(),
        false,
    );
}

/// Without metadata, a thread that starts outside every module yields
/// exactly one finding for its start address; the finding is of high risk
/// and names the thread and the address.
pub proof fn lemma_unmapped_thread_is_reported(
    modules: Seq<ModuleInfo>,
    threads: Seq<ThreadInfo>,
    artifacts: Seq<ProcessExecArtifact>,
    out: Seq<InjectedRegionView>,
    k: int,
)
    requires
        0 <= k < threads.len(),
        threads[k].start_address is Some,
        !in_any(ranges_of(modules), threads[k].start_address->0),
        lists_allocations(out, gathered(None, modules, threads, artifacts), false),
    ensures
        reported(
            out,
            threads[k].start_address->0,
            thread_reason(threads[k].thread_id, threads[k].start_address->0),
            true,
        ),
{
    let ranges = ranges_of(modules);
    let start = threads[k].start_address->0;
    let reason = thread_reason(threads[k].thread_id, start);
    let any = MemoryInfoEntry {
        base_address: 0,
        allocation_base: 0,
        region_size: 0,
        protection: 0,
        ty: 0,
        state: 0,
    };
    lemma_steps_put_on_file(
        unmapped_thread_pass(threads, ranges, k),
        any,
        threads[k].thread_id,
        start,
    );
    lemma_unmapped_pass_keeps_on_file(
        threads,
        ranges,
        k + 1,
        threads.len() as int,
        start,
        reason,
        true,
    );
    lemma_on_file_is_listed(
        out,
        gathered(None, modules, threads, artifacts),
        false,
        start,
        reason,
        true,
    );
}

/// A thread whose start address lies inside a module changes nothing, with
/// or without metadata.
pub proof fn lemma_thread_inside_module_is_ignored(
    m: Map<u64, AllocationModel>,
    t: ThreadInfo,
    entries: Seq<MemoryInfoEntry>,
    modules: Seq<ModuleInfo>,
    i: int,
)
    requires
        0 <= i < modules.len(),
        t.start_address matches Some(start) && modules[i].base <= start < modules[i].base
            + modules[i].size,
    ensures
        thread_step(m, t, entries, ranges_of(modules)) == m,
        unmapped_thread_step(m, t, ranges_of(modules)) == m,
{
    let ranges = ranges_of(modules);
    assert(inside(ranges[i], t.start_address->0));
}

/// Findings of high risk stand before findings of lower risk.
pub proof fn lemma_higher_risk_first(
    out: Seq<InjectedRegionView>,
    m: Map<u64, AllocationModel>,
    known: bool,
    i: int,
    j: int,
)
    requires
        lists_allocations(out, m, known),
        0 <= i < out.len(),
        0 <= j < out.len(),
        out[i].risk.rank() < out[j].risk.rank(),
    ensures
        i < j,
{
    if j < i {
        assert(region_before(out[j], out[i]));
    }
}

/// Number of records of a metadata list.
pub fn memory_info_count(list: &MinidumpMemoryInfoList<'_>) -> (n: usize)
    ensures
        n == memory_info_entries(list).len(),
{
    read_entries(list).len()
}

/// No allocation of `m` has the same reason twice.
pub open spec fn reasons_unique(m: Map<u64, AllocationModel>) -> bool {
    forall|b: u64| m.dom().contains(b) ==> (#[trigger] m[b]).reasons.no_duplicates()
}

proof fn lemma_with_text_unique(reasons: Seq<Seq<char>>, added: Seq<char>)
    requires
        reasons.no_duplicates(),
    ensures
        with_text(reasons, added).no_duplicates(),
{
    if !reasons.contains(added) {
        let after = reasons.push(added);
        assert forall|i: int, j: int| 0 <= i < after.len() && 0 <= j < after.len() && i
            != j implies after[i] != after[j] by {
            if i == reasons.len() {
                assert(reasons[j] != added);
            } else if j == reasons.len() {
                assert(reasons[i] != added);
            }
        }
    }
}

proof fn lemma_steps_keep_reasons_unique(
    m: Map<u64, AllocationModel>,
    e: MemoryInfoEntry,
    tid: u32,
    start: u64,
)
    requires
        reasons_unique(m),
    ensures
        reasons_unique(note_metadata(m, e)),
        reasons_unique(note_thread(m, e, tid, start)),
        reasons_unique(note_artifact(m, e)),
        reasons_unique(note_unmapped_thread(m, tid, start)),
{
    let a = entry_of(m, e.allocation_base);
    assert(a.reasons.no_duplicates());
    lemma_with_text_unique(absorbed(a, e).reasons, unbacked_reason());
    let b = reasoned(absorbed(a, e), unbacked_reason());
    lemma_with_text_unique(raised(b).reasons, rwx_reason());
    lemma_with_text_unique(raised(absorbed(a, e)).reasons, thread_reason(tid, start));
    lemma_with_text_unique(absorbed(a, e).reasons, artifact_reason());
    let c = entry_of(m, start);
    assert(c.reasons.no_duplicates());
    lemma_with_text_unique(raised(c).reasons, thread_reason(tid, start));
}

proof fn lemma_metadata_pass_reasons_unique(
    entries: Seq<MemoryInfoEntry>,
    ranges: Seq<(u64, u64)>,
    n: int,
)
    ensures
        reasons_unique(metadata_pass(entries, ranges, n)),
    decreases n,
{
    if n > 0 {
        lemma_metadata_pass_reasons_unique(entries, ranges, n - 1);
        lemma_steps_keep_reasons_unique(metadata_pass(entries, ranges, n - 1), entries[n - 1], 0, 0);
    }
}

proof fn lemma_thread_pass_reasons_unique(
    m: Map<u64, AllocationModel>,
    threads: Seq<ThreadInfo>,
    entries: Seq<MemoryInfoEntry>,
    ranges: Seq<(u64, u64)>,
    n: int,
)
    requires
        reasons_unique(m),
    ensures
        reasons_unique(thread_pass(m, threads, entries, ranges, n)),
    decreases n,
{
    if n > 0 {
        lemma_thread_pass_reasons_unique(m, threads, entries, ranges, n - 1);
        let before = thread_pass(m, threads, entries, ranges, n - 1);
        let t = threads[n - 1];
        if let Some(start) = t.start_address {
            if let Some(hit) = covering_entry(entries, start) {
                lemma_steps_keep_reasons_unique(before, hit, t.thread_id, start);
            }
        }
    }
}

proof fn lemma_artifact_pass_reasons_unique(
    m: Map<u64, AllocationModel>,
    artifacts: Seq<ProcessExecArtifact>,
    entries: Seq<MemoryInfoEntry>,
    ranges: Seq<(u64, u64)>,
    n: int,
)
    requires
        reasons_unique(m),
    ensures
        reasons_unique(artifact_pass(m, artifacts, entries, ranges, n)),
    decreases n,
{
    if n > 0 {
        lemma_artifact_pass_reasons_unique(m, artifacts, entries, ranges, n - 1);
        let before = artifact_pass(m, artifacts, entries, ranges, n - 1);
        if let Some(addr) = artifacts[n - 1].address {
            if let Some(hit) = covering_entry(entries, addr) {
                lemma_steps_keep_reasons_unique(before, hit, 0, 0);
            }
        }
    }
}

proof fn lemma_unmapped_pass_reasons_unique(threads: Seq<ThreadInfo>, ranges: Seq<(u64, u64)>, n: int)
    ensures
        reasons_unique(unmapped_thread_pass(threads, ranges, n)),
    decreases n,
{
    if n > 0 {
        lemma_unmapped_pass_reasons_unique(threads, ranges, n - 1);
        let before = unmapped_thread_pass(threads, ranges, n - 1);
        let t = threads[n - 1];
        if let Some(start) = t.start_address {
            let e = MemoryInfoEntry {
                base_address: 0,
                allocation_base: 0,
                region_size: 0,
                protection: 0,
                ty: 0,
                state: 0,
            };
            lemma_steps_keep_reasons_unique(before, e, t.thread_id, start);
        }
    }
}

/// No finding gives the same reason twice.
pub proof fn lemma_reasons_never_repeat(
    entries: Option<Seq<MemoryInfoEntry>>,
    modules: Seq<ModuleInfo>,
    threads: Seq<ThreadInfo>,
    artifacts: Seq<ProcessExecArtifact>,
    out: Seq<InjectedRegionView>,
    known: bool,
)
    requires
        lists_allocations(out, gathered(entries, modules, threads, artifacts), known),
    ensures
        forall|i: int| 0 <= i < out.len() ==> (#[trigger] out[i]).reasons.no_duplicates(),
{
    let ranges = ranges_of(modules);
    match entries {
        Some(es) => {
            lemma_metadata_pass_reasons_unique(es, ranges, es.len() as int);
            let first = metadata_pass(es, ranges, es.len() as int);
            lemma_thread_pass_reasons_unique(first, threads, es, ranges, threads.len() as int);
            let second = thread_pass(first, threads, es, ranges, threads.len() as int);
            lemma_artifact_pass_reasons_unique(second, artifacts, es, ranges, artifacts.len() as int);
        },
        None => {
            lemma_unmapped_pass_reasons_unique(threads, ranges, threads.len() as int);
        },
    }
    let m = gathered(entries, modules, threads, artifacts);
    assert forall|i: int| 0 <= i < out.len() implies (#[trigger] out[i]).reasons.no_duplicates() by {
        assert(out[i] == rendered(out[i].base, m[out[i].base], known));
    }
}

} // verus!
