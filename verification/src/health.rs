//! The health report: everything that can be said about an image's
//! condition, gathered in one pass and ranked by how much it matters.
//!
//! It reports, it does not judge. Findings carry a [`Severity`], and the
//! distinction that matters most is **would this lose data**: a day-zero
//! datestamp would not; a block used by a file but marked free would.
use vstd::prelude::*;

use crate::json::{JsonView, Value, fields_view, items_view, lemma_fields_view};
use crate::convert::equals_literal;
use crate::inspect::Fault;
use crate::text::{decimal, push_decimal, push_str};

verus! {

/// How much a finding matters.
#[derive(Debug, Clone, Copy, PartialEq, Eq, PartialOrd, Ord)]
pub enum Severity {
    /// Worth recording; not a problem.
    Info,
    /// Odd, or a sign of past trouble. Common on real disks.
    Warning,
    /// Would lose or corrupt data.
    Error,
}

/// A severity's place in the order Info < Warning < Error.
pub open spec fn rank(s: Severity) -> int {
    match s {
        Severity::Info => 0,
        Severity::Warning => 1,
        Severity::Error => 2,
    }
}

/// The stable identifier a severity is reported by.
pub open spec fn severity_name(s: Severity) -> &'static str {
    match s {
        Severity::Info => "info",
        Severity::Warning => "warning",
        Severity::Error => "error",
    }
}

impl Severity {
    /// Lower-case identifier, stable for the JSON surface.
    pub fn as_str(self) -> (r: &'static str)
        ensures
            r == severity_name(self),
    {
        match self {
            Severity::Info => "info",
            Severity::Warning => "warning",
            Severity::Error => "error",
        }
    }

    /// This severity's place in the order Info < Warning < Error.
    pub fn rank(self) -> (r: u8)
        ensures
            r == rank(self),
    {
        match self {
            Severity::Info => 0,
            Severity::Warning => 1,
            Severity::Error => 2,
        }
    }
}

/// One thing found wrong, or worth noting.
#[derive(Debug, Clone)]
pub struct Finding {
    /// Stable machine-readable identifier.
    pub code: &'static str,
    /// How much it matters.
    pub severity: Severity,
    /// Human-readable description. May be reworded; the code may not.
    pub message: String,
    /// The block it concerns, where there is one.
    pub block: Option<u32>,
}

/// A finding as plain values: code, severity, message, block.
pub open spec fn finding_view(f: Finding) -> (Seq<char>, Severity, Seq<char>, Option<u32>) {
    (f.code@, f.severity, f.message@, f.block)
}

impl Finding {
    /// A finding about no block in particular.
    pub fn new(code: &'static str, severity: Severity, message: String) -> (f: Finding)
        ensures
            f.code == code,
            f.severity == severity,
            f.message == message,
            f.block is None,
    {
        Finding { code, severity, message, block: None }
    }

    /// This finding, concerning `block`.
    pub fn at(self, block: u32) -> (f: Finding)
        ensures
            f.code == self.code,
            f.severity == self.severity,
            f.message == self.message,
            f.block == Some(block),
    {
        Finding { block: Some(block), ..self }
    }
}

/// What the bitmap says, and whether it is telling the truth.
#[derive(Debug, Clone)]
pub struct BitmapHealth {
    /// Blocks the bitmap marks in use.
    pub marked_used: usize,
    /// Blocks actually reachable from the directory tree.
    pub actually_used: usize,
    /// Marked in use, but nothing references them.
    pub orphaned: usize,
    /// Referenced by a file, but the bitmap says free: the next write would
    /// overwrite live data.
    pub referenced_but_free: usize,
    /// Blocks the bitmap covers at all.
    pub covered: u32,
    /// Whether the bitmap-valid flag claimed the map was valid.
    pub flagged_valid: bool,
}

/// The condition of one image.
#[derive(Debug, Clone)]
pub struct Health {
    /// Bitmap cross-check, where a volume was mountable.
    pub bitmap: Option<BitmapHealth>,
    /// Directories reached.
    pub directories: usize,
    /// Files reached.
    pub files: usize,
    /// Bytes recovered across every file.
    pub bytes_recovered: u64,
    /// Everything found, worst first.
    pub findings: Vec<Finding>,
}

/// The worst severity among the first `m` findings, if any.
pub open spec fn worst_in(fs: Seq<Finding>, m: int) -> Option<Severity>
    decreases m,
{
    if m <= 0 {
        None
    } else {
        match worst_in(fs, m - 1) {
            Some(w) => if rank(fs[m - 1].severity) > rank(w) {
                Some(fs[m - 1].severity)
            } else {
                Some(w)
            },
            None => Some(fs[m - 1].severity),
        }
    }
}

/// Findings among the first `m` with severity `s`.
pub open spec fn count_severity(fs: Seq<Finding>, s: Severity, m: int) -> nat
    decreases m,
{
    if m <= 0 {
        0
    } else {
        count_severity(fs, s, m - 1) + if fs[m - 1].severity == s {
            1nat
        } else {
            0nat
        }
    }
}

impl Health {
    /// The worst severity present, if anything was found.
    pub fn worst(&self) -> (r: Option<Severity>)
        ensures
            r == worst_in(self.findings@, self.findings@.len() as int),
    {
        let mut worst: Option<Severity> = None;
        let mut i: usize = 0;
        while i < self.findings.len()
            invariant
                i <= self.findings@.len(),
                worst == worst_in(self.findings@, i as int),
            decreases self.findings@.len() - i,
        {
            let s = self.findings[i].severity;
            worst = match worst {
                Some(w) => if s.rank() > w.rank() {
                    Some(s)
                } else {
                    Some(w)
                },
                None => Some(s),
            };
            i = i + 1;
        }
        worst
    }

    /// How many findings of each severity: info, warning, error.
    pub fn counts(&self) -> (r: (usize, usize, usize))
        ensures
            r.0 == count_severity(self.findings@, Severity::Info, self.findings@.len() as int),
            r.1 == count_severity(self.findings@, Severity::Warning, self.findings@.len() as int),
            r.2 == count_severity(self.findings@, Severity::Error, self.findings@.len() as int),
    {
        let mut c: (usize, usize, usize) = (0, 0, 0);
        let mut i: usize = 0;
        while i < self.findings.len()
            invariant
                i <= self.findings@.len(),
                c.0 == count_severity(self.findings@, Severity::Info, i as int),
                c.1 == count_severity(self.findings@, Severity::Warning, i as int),
                c.2 == count_severity(self.findings@, Severity::Error, i as int),
                c.0 + c.1 + c.2 == i,
            decreases self.findings@.len() - i,
        {
            match self.findings[i].severity {
                Severity::Info => c.0 = c.0 + 1,
                Severity::Warning => c.1 = c.1 + 1,
                Severity::Error => c.2 = c.2 + 1,
            }
            i = i + 1;
        }
        c
    }

    /// Whether nothing worse than `Info` was found.
    pub fn is_sound(&self) -> (r: bool)
        ensures
            r == match worst_in(self.findings@, self.findings@.len() as int) {
                Some(w) => rank(w) < 1,
                None => true,
            },
    {
        match self.worst() {
            Some(w) => w.rank() < 1,
            None => true,
        }
    }
}


/// A finding as plain values: code, severity, message, block.
pub open spec fn views(fs: Seq<Finding>) -> Seq<(Seq<char>, Severity, Seq<char>, Option<u32>)> {
    fs.map_values(|f: Finding| finding_view(f))
}

/// Whether `v` holds `x`.
fn holds(v: &Vec<u32>, x: u32) -> (r: bool)
    ensures
        r == v@.contains(x),
{
    let mut i: usize = 0;
    while i < v.len()
        invariant
            i <= v@.len(),
            forall|j: int| 0 <= j < i ==> v@[j] != x,
        decreases v@.len() - i,
    {
        if v[i] == x {
            return true;
        }
        i = i + 1;
    }
    false
}

/// Add `x` to a list of distinct blocks, unless it is already there.
fn insert_distinct(v: &mut Vec<u32>, x: u32)
    requires
        old(v)@.no_duplicates(),
    ensures
        final(v)@.no_duplicates(),
        final(v)@.to_set() == old(v)@.to_set().insert(x),
{
    if !holds(v, x) {
        let ghost before = v@;
        v.push(x);
        assert(v@.to_set() =~= before.to_set().insert(x)) by {
            assert forall|y: u32| v@.to_set().contains(y) <==> before.to_set().insert(x).contains(y) by {
                if y == x {
                    assert(v@[before.len() as int] == x);
                } else if before.contains(y) {
                    let k = choose|k: int| 0 <= k < before.len() && before[k] == y;
                    assert(v@[k] == y);
                }
            }
        }
    } else {
        assert(v@.to_set() =~= v@.to_set().insert(x));
    }
}

/// A count followed by a fixed text: "12 blocks ...".
fn counted(n: usize, tail: &str) -> (s: String)
    ensures
        s@ == decimal(n as nat) + tail@,
{
    let mut s = String::new();
    push_decimal(&mut s, n as u64);
    push_str(&mut s, tail);
    assert(s@ =~= decimal(n as nat) + tail@);
    s
}

/// What the bitmap blocks say, as read from the volume.
#[derive(Debug, Clone)]
pub struct BitmapFacts {
    /// Whether the bitmap-valid flag claims the map is current.
    pub flagged_valid: bool,
    /// Bitmap blocks whose checksum does not match.
    pub bad_checksums: Vec<u32>,
    /// Whether the bitmap stops short of the volume's end.
    pub incomplete: bool,
    /// The bitmap's own blocks.
    pub blocks: Vec<u32>,
    /// Every block the bitmap marks in use.
    pub allocated: Vec<u32>,
    /// Blocks the bitmap covers at all.
    pub covered: u32,
}

/// Every block that is legitimately in use: what the tree reached, the
/// rootblock, and the bitmap's own blocks.
pub open spec fn in_use(root: u32, referenced: Seq<u32>, bitmap_blocks: Seq<u32>) -> Set<u32> {
    referenced.to_set().insert(root).union(bitmap_blocks.to_set())
}

/// Whether a block is missing from what the bitmap marks in use.
pub open spec fn unmarked(allocated: Seq<u32>) -> spec_fn(u32) -> bool {
    |b: u32| !allocated.contains(b)
}

/// Whether a block is missing from what is in use.
pub open spec fn unused(used: Set<u32>) -> spec_fn(u32) -> bool {
    |b: u32| !used.contains(b)
}

/// Blocks in use that the bitmap says are free.
pub open spec fn live_but_free(used: Set<u32>, allocated: Seq<u32>) -> Set<u32> {
    used.filter(unmarked(allocated))
}

/// Blocks the bitmap marks in use that nothing uses, as the bitmap lists them.
pub open spec fn unreachable(allocated: Seq<u32>, used: Set<u32>) -> Seq<u32> {
    allocated.filter(unused(used))
}

/// Whether `h` is what the bitmap `b` says against the blocks in `used`.
pub open spec fn reports(h: BitmapHealth, used: Set<u32>, b: BitmapFacts) -> bool {
    &&& h.marked_used == b.allocated@.len()
    &&& h.actually_used == used.len()
    &&& h.referenced_but_free == live_but_free(used, b.allocated@).len()
    &&& h.orphaned == unreachable(b.allocated@, used).len()
    &&& h.covered == b.covered
    &&& h.flagged_valid == b.flagged_valid
}

/// The message of the finding for blocks in use but marked free.
pub open spec fn live_but_free_message(n: nat) -> Seq<char> {
    decimal(n) + " blocks are in use by files but marked free \u{2014} writing to this volume would overwrite live data"@
}

/// The message of the finding for blocks marked in use that nothing reaches.
pub open spec fn unreachable_message(n: nat) -> Seq<char> {
    decimal(n) + " blocks are marked in use but unreachable \u{2014} lost space, or deleted files whose blocks were never freed"@
}

/// One finding per bitmap block whose checksum fails.
pub open spec fn checksum_findings(bad: Seq<u32>) -> Seq<(Seq<char>, Severity, Seq<char>, Option<u32>)> {
    bad.map_values(|b: u32| ("bitmap-checksum"@, Severity::Warning, "bitmap block checksum does not match"@, Some(b)))
}

/// What the bitmap cross-check reports, in order.
pub open spec fn bitmap_findings(f: BitmapFacts, live_free: nat, orphaned: nat) -> Seq<
    (Seq<char>, Severity, Seq<char>, Option<u32>),
> {
    (if f.flagged_valid {
        Seq::empty()
    } else {
        seq![("bitmap-flag-clear"@, Severity::Warning, "bitmap-valid flag is clear \u{2014} the map may be stale (AV-003)"@, None)]
    }) + checksum_findings(f.bad_checksums@) + (if f.incomplete {
        seq![("bitmap-incomplete"@, Severity::Warning, "the bitmap does not cover the whole volume"@, None)]
    } else {
        Seq::empty()
    }) + (if live_free > 0 {
        seq![("referenced-but-free"@, Severity::Error, live_but_free_message(live_free), None)]
    } else {
        Seq::empty()
    }) + (if orphaned > 0 {
        seq![("orphaned-blocks"@, Severity::Warning, unreachable_message(orphaned), None)]
    } else {
        Seq::empty()
    })
}

/// Append one finding, keeping the views in step.
fn record(findings: &mut Vec<Finding>, f: Finding)
    ensures
        views(final(findings)@) == views(old(findings)@).push(finding_view(f)),
{
    let ghost before = findings@;
    findings.push(f);
    assert(views(findings@) =~= views(before).push(finding_view(f)));
}

/// Check the bitmap against what the tree actually uses.
///
/// The bitmap blocks and the rootblock are allocated but not reached by a
/// tree walk: they are the filesystem's own overhead, so they count as used.
/// The two directions are not equally serious: a block in use but marked
/// free is overwritten by the next write; a block marked in use that nothing
/// reaches is only lost space.
pub fn cross_check_bitmap(
    root: u32,
    referenced: &Vec<u32>,
    bitmap: &BitmapFacts,
    findings: &mut Vec<Finding>,
) -> (r: BitmapHealth)
    ensures
        reports(r, in_use(root, referenced@, bitmap.blocks@), *bitmap),
        views(final(findings)@) == views(old(findings)@) + bitmap_findings(
            *bitmap,
            r.referenced_but_free as nat,
            r.orphaned as nat,
        ),
{
    let ghost start = views(findings@);
    if !bitmap.flagged_valid {
        record(findings, Finding::new(
            "bitmap-flag-clear",
            Severity::Warning,
            "bitmap-valid flag is clear \u{2014} the map may be stale (AV-003)".to_owned(),
        ));
    }
    let ghost after_flag = views(findings@);
    let mut k: usize = 0;
    while k < bitmap.bad_checksums.len()
        invariant
            k <= bitmap.bad_checksums@.len(),
            views(findings@) == after_flag + checksum_findings(bitmap.bad_checksums@.take(k as int)),
        decreases bitmap.bad_checksums@.len() - k,
    {
        let bad = bitmap.bad_checksums[k];
        record(findings, Finding::new(
            "bitmap-checksum",
            Severity::Warning,
            "bitmap block checksum does not match".to_owned(),
        ).at(bad));
        k = k + 1;
        assert(checksum_findings(bitmap.bad_checksums@.take(k as int)) =~= checksum_findings(
            bitmap.bad_checksums@.take(k - 1),
        ).push(("bitmap-checksum"@, Severity::Warning, "bitmap block checksum does not match"@, Some(bad))));
    }
    assert(bitmap.bad_checksums@.take(k as int) =~= bitmap.bad_checksums@);
    if bitmap.incomplete {
        record(findings, Finding::new(
            "bitmap-incomplete",
            Severity::Warning,
            "the bitmap does not cover the whole volume".to_owned(),
        ));
    }

    // Every block in use, each once.
    let ghost used = in_use(root, referenced@, bitmap.blocks@);
    let mut seen: Vec<u32> = Vec::new();
    let mut i: usize = 0;
    while i < referenced.len()
        invariant
            i <= referenced@.len(),
            seen@.no_duplicates(),
            seen@.to_set() == referenced@.take(i as int).to_set(),
        decreases referenced@.len() - i,
    {
        insert_distinct(&mut seen, referenced[i]);
        assert(referenced@.take(i + 1).to_set() =~= referenced@.take(i as int).to_set().insert(referenced@[i as int])) by {
            assert(referenced@.take(i + 1) =~= referenced@.take(i as int).push(referenced@[i as int]));
            referenced@.take(i as int).lemma_push_to_set_commute(referenced@[i as int]);
        }
        i = i + 1;
    }
    assert(referenced@.take(i as int) =~= referenced@);
    insert_distinct(&mut seen, root);
    let mut j: usize = 0;
    while j < bitmap.blocks.len()
        invariant
            j <= bitmap.blocks@.len(),
            seen@.no_duplicates(),
            seen@.to_set() == referenced@.to_set().insert(root).union(bitmap.blocks@.take(j as int).to_set()),
        decreases bitmap.blocks@.len() - j,
    {
        insert_distinct(&mut seen, bitmap.blocks[j]);
        assert(bitmap.blocks@.take(j + 1).to_set() =~= bitmap.blocks@.take(j as int).to_set().insert(bitmap.blocks@[j as int])) by {
            assert(bitmap.blocks@.take(j + 1) =~= bitmap.blocks@.take(j as int).push(bitmap.blocks@[j as int]));
            bitmap.blocks@.take(j as int).lemma_push_to_set_commute(bitmap.blocks@[j as int]);
        }
        j = j + 1;
        assert(seen@.to_set() =~= referenced@.to_set().insert(root).union(bitmap.blocks@.take(j as int).to_set()));
    }
    assert(bitmap.blocks@.take(j as int) =~= bitmap.blocks@);
    assert(seen@.to_set() == used);
    proof { seen@.unique_seq_to_set(); }

    // In use, but the bitmap says free.
    let ghost alloc = bitmap.allocated@;
    let mut live_free: usize = 0;
    let ghost mut free_set: Set<u32> = Set::empty();
    let mut m: usize = 0;
    while m < seen.len()
        invariant
            m <= seen@.len(),
            seen@.no_duplicates(),
            alloc == bitmap.allocated@,
            free_set == seen@.take(m as int).to_set().filter(unmarked(alloc)),
            free_set.finite(),
            live_free == free_set.len(),
            live_free <= m,
        decreases seen@.len() - m,
    {
        let b = seen[m];
        let marked = holds(&bitmap.allocated, b);
        proof {
            assert(seen@.take(m + 1) =~= seen@.take(m as int).push(b));
            seen@.take(m as int).lemma_push_to_set_commute(b);
            assert(!seen@.take(m as int).contains(b)) by {
                if seen@.take(m as int).contains(b) {
                    let k = choose|k: int| 0 <= k < m && seen@.take(m as int)[k] == b;
                    assert(seen@[k] == seen@[m as int]);
                }
            }
        }
        if !marked {
            proof {
                free_set = free_set.insert(b);
            }
            live_free = live_free + 1;
        }
        m = m + 1;
        assert(free_set =~= seen@.take(m as int).to_set().filter(unmarked(alloc)));
    }
    assert(seen@.take(m as int) =~= seen@);
    assert(free_set =~= live_but_free(used, alloc));

    // Marked in use, but nothing uses them.
    let mut orphaned: usize = 0;
    let mut n: usize = 0;
    while n < bitmap.allocated.len()
        invariant
            n <= alloc.len(),
            alloc == bitmap.allocated@,
            seen@.to_set() == used,
            orphaned == alloc.take(n as int).filter(unused(used)).len(),
            orphaned <= n,
        decreases alloc.len() - n,
    {
        let b = bitmap.allocated[n];
        let reached = holds(&seen, b);
        proof {
            assert(alloc.take(n + 1) =~= alloc.take(n as int).push(b));
            alloc.take(n as int).lemma_filter_push(b, unused(used));
            assert(reached == used.contains(b));
        }
        if !reached {
            orphaned = orphaned + 1;
        }
        n = n + 1;
    }
    assert(alloc.take(n as int) =~= alloc);

    if live_free > 0 {
        let msg = counted(
            live_free,
            " blocks are in use by files but marked free \u{2014} writing to this volume would overwrite live data",
        );
        record(findings, Finding::new("referenced-but-free", Severity::Error, msg));
    }
    if orphaned > 0 {
        let msg = counted(
            orphaned,
            " blocks are marked in use but unreachable \u{2014} lost space, or deleted files whose blocks were never freed",
        );
        record(findings, Finding::new("orphaned-blocks", Severity::Warning, msg));
    }
    let r = BitmapHealth {
        marked_used: bitmap.allocated.len(),
        actually_used: seen.len(),
        orphaned,
        referenced_but_free: live_free,
        covered: bitmap.covered,
        flagged_valid: bitmap.flagged_valid,
    };
    assert(views(findings@) =~= start + bitmap_findings(*bitmap, live_free as nat, orphaned as nat));
    r
}


/// What an entry of the directory tree is, as far as the scan cares.
#[derive(Debug, Clone, Copy, PartialEq, Eq, Structural)]
pub enum EntryClass {
    /// A directory.
    Directory,
    /// A file, or a link to one.
    File,
    /// Anything else the tree holds.
    Other,
}

/// What reading one file recovered.
#[derive(Debug, Clone)]
pub struct FileContents {
    /// Bytes recovered.
    pub recovered: u64,
    /// The size the file header declares.
    pub declared_size: u32,
    /// Whether fewer bytes came back than were declared.
    pub short: bool,
    /// Data-block faults met on the way: the first block concerned, and what
    /// was wrong with it.
    pub faults: Vec<(u32, String)>,
    /// Whether the read ran past the end of the volume and was stopped.
    pub exceeded_volume: bool,
}

/// One entry reached by walking the directory tree.
#[derive(Debug)]
pub struct TreeEntry {
    /// Its full path on the volume.
    pub path: String,
    /// The block of its header.
    pub block: u32,
    /// What it is.
    pub class: EntryClass,
    /// Whether its header checksum verifies.
    pub checksum_valid: bool,
    /// Every block the file occupies, where the block list could be read.
    pub data_blocks: Option<Vec<u32>>,
    /// What reading the file produced, or why it could not be read.
    pub contents: Result<FileContents, String>,
}

/// The result of walking the tree from the root.
#[derive(Debug)]
pub struct Walked {
    /// Every entry reached, in walk order.
    pub entries: Vec<TreeEntry>,
    /// Whether the walk stopped at its structural cap.
    pub hit_limit: bool,
}

/// What the tree scan counted.
#[derive(Debug, Clone)]
pub struct TreeScan {
    /// Directories reached.
    pub directories: usize,
    /// Files reached.
    pub files: usize,
    /// Bytes recovered across every file.
    pub bytes: u64,
    /// Every block the tree uses, each once.
    pub referenced: Vec<u32>,
}

/// The blocks a file entry contributes, each with the file's path, in order.
pub open spec fn file_occurrences(e: TreeEntry) -> Seq<(u32, Seq<char>)> {
    if e.class == EntryClass::File && e.data_blocks is Some {
        e.data_blocks->0@.map_values(|b: u32| (b, e.path@))
    } else {
        Seq::empty()
    }
}

/// Every (block, owner) pair the files of `entries` contribute, in walk order.
pub open spec fn occurrences(entries: Seq<TreeEntry>) -> Seq<(u32, Seq<char>)>
    decreases entries.len(),
{
    if entries.len() == 0 {
        Seq::empty()
    } else {
        occurrences(entries.drop_last()) + file_occurrences(entries.last())
    }
}

/// Whether position `k` is where `b` first occurs.
pub open spec fn first_at(occ: Seq<(u32, Seq<char>)>, b: u32, k: int) -> bool {
    &&& 0 <= k < occ.len()
    &&& occ[k].0 == b
    &&& forall|j: int| 0 <= j < k ==> occ[j].0 != b
}

/// Whether `b` occurs at all.
pub open spec fn occurs(occ: Seq<(u32, Seq<char>)>, b: u32) -> bool {
    exists|k: int| 0 <= k < occ.len() && occ[k].0 == b
}

/// The path that first claimed `b`.
pub open spec fn first_owner(occ: Seq<(u32, Seq<char>)>, b: u32) -> Seq<char> {
    occ[choose|k: int| first_at(occ, b, k)].1
}

/// The cross-link findings for a file's blocks, given every earlier claim.
pub open spec fn cross_links(prior: Seq<(u32, Seq<char>)>, blocks: Seq<u32>, path: Seq<char>) -> Seq<
    (Seq<char>, Severity, Seq<char>, Option<u32>),
>
    decreases blocks.len(),
{
    if blocks.len() == 0 {
        Seq::empty()
    } else {
        let b = blocks.last();
        let before = prior + blocks.drop_last().map_values(|x: u32| (x, path));
        cross_links(prior, blocks.drop_last(), path) + if occurs(before, b) && first_owner(before, b)
            != path {
            seq![
                (
                    "cross-linked-block"@,
                    Severity::Error,
                    "block shared by "@ + first_owner(before, b) + " and "@ + path,
                    Some(b),
                ),
            ]
        } else {
            Seq::empty()
        }
    }
}

/// One finding per data-block fault of a file.
pub open spec fn fault_findings(path: Seq<char>, faults: Seq<(u32, String)>) -> Seq<
    (Seq<char>, Severity, Seq<char>, Option<u32>),
> {
    faults.map_values(
        |f: (u32, String)| ("data-block-structure"@, Severity::Warning, path + ": "@ + f.1@, Some(f.0)),
    )
}

/// What reading a file reports.
pub open spec fn read_findings(e: TreeEntry) -> Seq<(Seq<char>, Severity, Seq<char>, Option<u32>)> {
    match e.contents {
        Ok(c) => (if c.short {
            seq![
                (
                    "file-short"@,
                    Severity::Warning,
                    e.path@ + ": recovered "@ + decimal(c.recovered as nat) + " of "@ + decimal(
                        c.declared_size as nat,
                    ) + " declared bytes"@,
                    Some(e.block),
                ),
            ]
        } else {
            Seq::empty()
        }) + fault_findings(e.path@, c.faults@) + if c.exceeded_volume {
            seq![
                (
                    "file-exceeds-volume"@,
                    Severity::Error,
                    e.path@ + ": read stopped at the volume's size"@,
                    Some(e.block),
                ),
            ]
        } else {
            Seq::empty()
        },
        Err(why) => seq![("file-unreadable"@, Severity::Error, e.path@ + ": "@ + why@, Some(e.block))],
    }
}

/// Everything one file reports, given every block claimed before it.
pub open spec fn file_findings(prior: Seq<(u32, Seq<char>)>, e: TreeEntry) -> Seq<
    (Seq<char>, Severity, Seq<char>, Option<u32>),
> {
    (if e.checksum_valid {
        Seq::empty()
    } else {
        seq![
            (
                "entry-checksum"@,
                Severity::Warning,
                e.path@ + ": file header checksum does not match"@,
                Some(e.block),
            ),
        ]
    }) + (match e.data_blocks {
        Some(blocks) => cross_links(prior, blocks@, e.path@),
        None => Seq::empty(),
    }) + read_findings(e)
}

/// Everything the entries report, in walk order.
pub open spec fn tree_findings(entries: Seq<TreeEntry>) -> Seq<(Seq<char>, Severity, Seq<char>, Option<u32>)>
    decreases entries.len(),
{
    if entries.len() == 0 {
        Seq::empty()
    } else {
        tree_findings(entries.drop_last()) + if entries.last().class == EntryClass::File {
            file_findings(occurrences(entries.drop_last()), entries.last())
        } else {
            Seq::empty()
        }
    }
}

/// Entries of one class.
pub open spec fn count_class(entries: Seq<TreeEntry>, c: EntryClass) -> nat
    decreases entries.len(),
{
    if entries.len() == 0 {
        0
    } else {
        count_class(entries.drop_last(), c) + if entries.last().class == c {
            1nat
        } else {
            0nat
        }
    }
}

/// Addition that stops at the largest `u64`.
pub open spec fn saturating(a: int, b: int) -> int {
    if a + b > u64::MAX {
        u64::MAX as int
    } else {
        a + b
    }
}

/// Bytes recovered from the files among `entries`, adding with saturation.
pub open spec fn bytes_recovered(entries: Seq<TreeEntry>) -> int
    decreases entries.len(),
{
    if entries.len() == 0 {
        0
    } else {
        let e = entries.last();
        if e.class == EntryClass::File && e.contents is Ok {
            saturating(bytes_recovered(entries.drop_last()), e.contents->Ok_0.recovered as int)
        } else {
            bytes_recovered(entries.drop_last())
        }
    }
}

/// Every block the tree uses: the root, the header of every entry that is not
/// a file, and every block of every file.
pub open spec fn tree_blocks(root: u32, entries: Seq<TreeEntry>) -> Set<u32> {
    Set::new(
        |b: u32|
            b == root || (exists|i: int|
                0 <= i < entries.len() && entries[i].class != EntryClass::File && entries[i].block
                    == b) || occurs(occurrences(entries), b),
    )
}

/// What walking the tree reports, before any entry.
pub open spec fn walk_findings(walked: Option<Walked>) -> Seq<(Seq<char>, Severity, Seq<char>, Option<u32>)> {
    match walked {
        None => seq![("tree-unreadable"@, Severity::Error, "the directory tree could not be walked"@, None)],
        Some(w) => (if w.hit_limit {
            seq![
                (
                    "walk-capped"@,
                    Severity::Error,
                    "the tree walk hit its structural cap \u{2014} cycle detection failed"@,
                    None,
                ),
            ]
        } else {
            Seq::empty()
        }) + tree_findings(w.entries@),
    }
}


/// The blocks one entry adds to what the tree uses.
pub open spec fn entry_blocks(e: TreeEntry) -> Set<u32> {
    if e.class != EntryClass::File {
        set![e.block]
    } else if e.data_blocks is Some {
        e.data_blocks->0@.to_set()
    } else {
        Set::empty()
    }
}

proof fn lemma_occurs_concat(a: Seq<(u32, Seq<char>)>, b: Seq<(u32, Seq<char>)>, x: u32)
    ensures
        occurs(a + b, x) == (occurs(a, x) || occurs(b, x)),
{
    if occurs(a + b, x) {
        let k = choose|k: int| 0 <= k < (a + b).len() && (a + b)[k].0 == x;
        if k < a.len() {
            assert((a + b)[k] == a[k]);
        } else {
            assert((a + b)[k] == b[k - a.len()]);
        }
    }
    if occurs(a, x) {
        let k = choose|k: int| 0 <= k < a.len() && a[k].0 == x;
        assert((a + b)[k] == a[k]);
    }
    if occurs(b, x) {
        let k = choose|k: int| 0 <= k < b.len() && b[k].0 == x;
        assert((a + b)[a.len() + k] == b[k]);
    }
}

proof fn lemma_occurs_paired(blocks: Seq<u32>, path: Seq<char>, x: u32)
    ensures
        occurs(blocks.map_values(|b: u32| (b, path)), x) == blocks.contains(x),
{
    let m = blocks.map_values(|b: u32| (b, path));
    if blocks.contains(x) {
        let k = choose|k: int| 0 <= k < blocks.len() && blocks[k] == x;
        assert(m[k].0 == x);
    }
    if occurs(m, x) {
        let k = choose|k: int| 0 <= k < m.len() && m[k].0 == x;
        assert(blocks[k] == x);
    }
}

/// Each entry adds its own blocks to what the tree uses.
proof fn lemma_tree_blocks_step(root: u32, entries: Seq<TreeEntry>, i: int)
    requires
        0 <= i < entries.len(),
    ensures
        tree_blocks(root, entries.take(i + 1)) == tree_blocks(root, entries.take(i)).union(
            entry_blocks(entries[i]),
        ),
{
    let pre = entries.take(i);
    let post = entries.take(i + 1);
    assert(post.drop_last() =~= pre);
    assert(post.last() == entries[i]);
    let e = entries[i];
    assert forall|x: u32| tree_blocks(root, post).contains(x) == tree_blocks(root, pre).union(
        entry_blocks(e),
    ).contains(x) by {
        lemma_occurs_concat(occurrences(pre), file_occurrences(e), x);
        if e.class == EntryClass::File && e.data_blocks is Some {
            lemma_occurs_paired(e.data_blocks->0@, e.path@, x);
        }
        if exists|j: int| 0 <= j < post.len() && post[j].class != EntryClass::File && post[j].block == x {
            let j = choose|j: int| 0 <= j < post.len() && post[j].class != EntryClass::File && post[j].block == x;
            if j < i {
                assert(pre[j] == post[j]);
            }
        }
        if exists|j: int| 0 <= j < pre.len() && pre[j].class != EntryClass::File && pre[j].block == x {
            let j = choose|j: int| 0 <= j < pre.len() && pre[j].class != EntryClass::File && pre[j].block == x;
            assert(post[j] == pre[j]);
        }
        if e.class != EntryClass::File && x == e.block {
            assert(post[i] == e);
        }
    }
    assert(tree_blocks(root, post) =~= tree_blocks(root, pre).union(entry_blocks(e)));
}

/// The first position at which `b` has been claimed, if any.
fn first_claim(claims: &Vec<(u32, usize)>, b: u32) -> (r: Option<usize>)
    ensures
        match r {
            Some(k) => k < claims@.len() && claims@[k as int].0 == b && forall|j: int|
                0 <= j < k ==> claims@[j].0 != b,
            None => forall|j: int| 0 <= j < claims@.len() ==> claims@[j].0 != b,
        },
{
    let mut k: usize = 0;
    while k < claims.len()
        invariant
            k <= claims@.len(),
            forall|j: int| 0 <= j < k ==> claims@[j].0 != b,
        decreases claims@.len() - k,
    {
        if claims[k].0 == b {
            return Some(k);
        }
        k = k + 1;
    }
    None
}

/// Claims as (block, owning path) pairs.
pub open spec fn claim_view(entries: Seq<TreeEntry>, claims: Seq<(u32, usize)>) -> Seq<(u32, Seq<char>)> {
    claims.map_values(|c: (u32, usize)| (c.0, entries[c.1 as int].path@))
}

proof fn lemma_first_unique(occ: Seq<(u32, Seq<char>)>, b: u32, k: int)
    requires
        first_at(occ, b, k),
    ensures
        occurs(occ, b),
        first_owner(occ, b) == occ[k].1,
{
    assert(occ[k].0 == b);
    let c = choose|c: int| first_at(occ, b, c);
    assert(first_at(occ, b, c));
    if c < k {
        assert(occ[c].0 != b);
    } else if c > k {
        assert(occ[k].0 != b);
    }
}

/// Claim every block of the file at `idx`, reporting each block some other
/// file claimed first.
fn claim_blocks(
    entries: &Vec<TreeEntry>,
    idx: usize,
    blocks: &Vec<u32>,
    claims: &mut Vec<(u32, usize)>,
    referenced: &mut Vec<u32>,
    findings: &mut Vec<Finding>,
)
    requires
        idx < entries@.len(),
        forall|j: int| 0 <= j < old(claims)@.len() ==> old(claims)@[j].1 < entries@.len(),
        old(referenced)@.no_duplicates(),
    ensures
        claim_view(entries@, final(claims)@) == claim_view(entries@, old(claims)@) + blocks@.map_values(
            |b: u32| (b, entries@[idx as int].path@),
        ),
        forall|j: int| 0 <= j < final(claims)@.len() ==> final(claims)@[j].1 < entries@.len(),
        final(referenced)@.no_duplicates(),
        final(referenced)@.to_set() == old(referenced)@.to_set().union(blocks@.to_set()),
        views(final(findings)@) == views(old(findings)@) + cross_links(
            claim_view(entries@, old(claims)@),
            blocks@,
            entries@[idx as int].path@,
        ),
{
    let ghost prior = claim_view(entries@, claims@);
    let ghost path = entries@[idx as int].path@;
    let ghost start = views(findings@);
    let ghost refs0 = referenced@.to_set();
    let mut k: usize = 0;
    while k < blocks.len()
        invariant
            idx < entries@.len(),
            path == entries@[idx as int].path@,
            k <= blocks@.len(),
            forall|j: int| 0 <= j < claims@.len() ==> claims@[j].1 < entries@.len(),
            claim_view(entries@, claims@) == prior + blocks@.take(k as int).map_values(|b: u32| (b, path)),
            referenced@.no_duplicates(),
            referenced@.to_set() == refs0.union(blocks@.take(k as int).to_set()),
            views(findings@) == start + cross_links(prior, blocks@.take(k as int), path),
        decreases blocks@.len() - k,
    {
        let b = blocks[k];
        let ghost before = claim_view(entries@, claims@);
        let ghost taken = blocks@.take(k + 1);
        assert(taken.drop_last() =~= blocks@.take(k as int));
        assert(taken.last() == b);
        match first_claim(claims, b) {
            Some(at) => {
                proof {
                    assert(before[at as int].0 == b);
                    assert forall|j: int| 0 <= j < at implies before[j].0 != b by {
                        assert(before[j].0 == claims@[j].0);
                    }
                    assert(first_at(before, b, at as int));
                    lemma_first_unique(before, b, at as int);
                }
                let owner = claims[at].1;
                if entries[owner].path != entries[idx].path {
                    let mut msg = String::new();
                    push_str(&mut msg, "block shared by ");
                    push_str(&mut msg, entries[owner].path.as_str());
                    push_str(&mut msg, " and ");
                    push_str(&mut msg, entries[idx].path.as_str());
                    record(findings, Finding::new("cross-linked-block", Severity::Error, msg).at(b));
                }
            },
            None => {
                proof {
                    assert forall|j: int| 0 <= j < before.len() implies before[j].0 != b by {
                        assert(before[j].0 == claims@[j].0);
                    }
                }
            },
        }
        assert(views(findings@) =~= start + cross_links(prior, taken, path));
        let ghost claims_before = claims@;
        claims.push((b, idx));
        assert(claims@ == claims_before.push((b, idx)));
        assert(claim_view(entries@, claims@) =~= claim_view(entries@, claims_before).push((b, path)));
        assert(taken.map_values(|b: u32| (b, path)) =~= blocks@.take(k as int).map_values(|b: u32| (b, path)).push((b, path)));
        assert(claim_view(entries@, claims@) =~= prior + taken.map_values(|b: u32| (b, path)));
        insert_distinct(referenced, b);
        proof {
            blocks@.take(k as int).lemma_push_to_set_commute(b);
            assert(taken =~= blocks@.take(k as int).push(b));
        }
        k = k + 1;
        assert(referenced@.to_set() =~= refs0.union(blocks@.take(k as int).to_set()));
    }
    assert(blocks@.take(k as int) =~= blocks@);
}


/// Add two counts, stopping at the largest `u64`.
fn add_saturating(a: u64, b: u64) -> (r: u64)
    ensures
        r == saturating(a as int, b as int),
{
    if a > u64::MAX - b {
        u64::MAX
    } else {
        a + b
    }
}

/// A path followed by a fixed text.
fn about(path: &String, text: &str) -> (s: String)
    ensures
        s@ == path@ + text@,
{
    let mut s = String::new();
    push_str(&mut s, path.as_str());
    push_str(&mut s, text);
    assert(s@ =~= path@ + text@);
    s
}

/// What reading one file reports, and the bytes it recovered.
fn report_contents(e: &TreeEntry, bytes: &mut u64, findings: &mut Vec<Finding>)
    ensures
        *final(bytes) == match e.contents {
            Ok(c) => saturating(*old(bytes) as int, c.recovered as int),
            Err(_) => *old(bytes) as int,
        },
        views(final(findings)@) == views(old(findings)@) + read_findings(*e),
{
    let ghost start = views(findings@);
    match &e.contents {
        Ok(c) => {
            *bytes = add_saturating(*bytes, c.recovered);
            if c.short {
                let mut msg = about(&e.path, ": recovered ");
                push_decimal(&mut msg, c.recovered);
                push_str(&mut msg, " of ");
                push_decimal(&mut msg, c.declared_size as u64);
                push_str(&mut msg, " declared bytes");
                record(findings, Finding::new("file-short", Severity::Warning, msg).at(e.block));
            }
            let ghost after_short = views(findings@);
            let mut k: usize = 0;
            while k < c.faults.len()
                invariant
                    k <= c.faults@.len(),
                    views(findings@) == after_short + fault_findings(e.path@, c.faults@.take(k as int)),
                decreases c.faults@.len() - k,
            {
                let first = c.faults[k].0;
                let mut msg = about(&e.path, ": ");
                push_str(&mut msg, c.faults[k].1.as_str());
                record(findings, Finding::new("data-block-structure", Severity::Warning, msg).at(first));
                k = k + 1;
                assert(fault_findings(e.path@, c.faults@.take(k as int)) =~= fault_findings(
                    e.path@,
                    c.faults@.take(k - 1),
                ).push(("data-block-structure"@, Severity::Warning, e.path@ + ": "@ + c.faults@[k - 1].1@, Some(first))));
            }
            assert(c.faults@.take(k as int) =~= c.faults@);
            if c.exceeded_volume {
                record(findings, Finding::new(
                    "file-exceeds-volume",
                    Severity::Error,
                    about(&e.path, ": read stopped at the volume's size"),
                ).at(e.block));
            }
        },
        Err(why) => {
            let mut msg = about(&e.path, ": ");
            push_str(&mut msg, why.as_str());
            record(findings, Finding::new("file-unreadable", Severity::Error, msg).at(e.block));
        },
    }
    assert(views(findings@) =~= start + read_findings(*e));
}

/// Everything one file contributes: its blocks, its cross-links, its contents.
fn scan_file(
    entries: &Vec<TreeEntry>,
    idx: usize,
    claims: &mut Vec<(u32, usize)>,
    referenced: &mut Vec<u32>,
    bytes: &mut u64,
    findings: &mut Vec<Finding>,
)
    requires
        idx < entries@.len(),
        entries@[idx as int].class == EntryClass::File,
        forall|j: int| 0 <= j < old(claims)@.len() ==> old(claims)@[j].1 < entries@.len(),
        old(referenced)@.no_duplicates(),
    ensures
        claim_view(entries@, final(claims)@) == claim_view(entries@, old(claims)@) + file_occurrences(
            entries@[idx as int],
        ),
        forall|j: int| 0 <= j < final(claims)@.len() ==> final(claims)@[j].1 < entries@.len(),
        final(referenced)@.no_duplicates(),
        final(referenced)@.to_set() == old(referenced)@.to_set().union(entry_blocks(entries@[idx as int])),
        *final(bytes) == match entries@[idx as int].contents {
            Ok(c) => saturating(*old(bytes) as int, c.recovered as int),
            Err(_) => *old(bytes) as int,
        },
        views(final(findings)@) == views(old(findings)@) + file_findings(
            claim_view(entries@, old(claims)@),
            entries@[idx as int],
        ),
{
    let ghost start = views(findings@);
    let ghost prior = claim_view(entries@, claims@);
    let e = &entries[idx];
    if !e.checksum_valid {
        record(findings, Finding::new(
            "entry-checksum",
            Severity::Warning,
            about(&e.path, ": file header checksum does not match"),
        ).at(e.block));
    }
    match &e.data_blocks {
        Some(blocks) => {
            claim_blocks(entries, idx, blocks, claims, referenced, findings);
        },
        None => {
            assert(referenced@.to_set() =~= referenced@.to_set().union(Set::empty()));
        },
    }
    report_contents(e, bytes, findings);
    assert(views(findings@) =~= start + file_findings(prior, entries@[idx as int]));
}

/// Walk what the tree reached, counting it and reporting what is wrong.
///
/// A block claimed by two files is cross-linked: writing either corrupts the
/// other. Claims are tracked by first owner, so the report names both.
pub fn scan_tree(root: u32, walked: &Option<Walked>, findings: &mut Vec<Finding>) -> (r: TreeScan)
    ensures
        views(final(findings)@) == views(old(findings)@) + walk_findings(*walked),
        r.referenced@.no_duplicates(),
        match walked {
            None => r.directories == 0 && r.files == 0 && r.bytes == 0 && r.referenced@.to_set() == set![root],
            Some(w) => {
                &&& r.directories == count_class(w.entries@, EntryClass::Directory)
                &&& r.files == count_class(w.entries@, EntryClass::File)
                &&& r.bytes == bytes_recovered(w.entries@)
                &&& r.referenced@.to_set() == tree_blocks(root, w.entries@)
            },
        },
{
    let ghost start = views(findings@);
    let mut referenced: Vec<u32> = Vec::new();
    referenced.push(root);
    assert(referenced@.to_set() =~= set![root]) by {
        assert(referenced@[0] == root);
    }
    match walked {
        None => {
            record(findings, Finding::new(
                "tree-unreadable",
                Severity::Error,
                "the directory tree could not be walked".to_owned(),
            ));
            assert(views(findings@) =~= start + walk_findings(*walked));
            TreeScan { directories: 0, files: 0, bytes: 0, referenced }
        },
        Some(w) => {
            if w.hit_limit {
                record(findings, Finding::new(
                    "walk-capped",
                    Severity::Error,
                    "the tree walk hit its structural cap \u{2014} cycle detection failed".to_owned(),
                ));
            }
            let ghost after_cap = views(findings@);
            let entries = &w.entries;
            assert(tree_blocks(root, entries@.take(0)) =~= set![root]);
            let mut claims: Vec<(u32, usize)> = Vec::new();
            let mut directories: usize = 0;
            let mut files: usize = 0;
            let mut bytes: u64 = 0;
            let mut i: usize = 0;
            while i < entries.len()
                invariant
                    i <= entries@.len(),
                    forall|j: int| 0 <= j < claims@.len() ==> claims@[j].1 < entries@.len(),
                    claim_view(entries@, claims@) == occurrences(entries@.take(i as int)),
                    referenced@.no_duplicates(),
                    referenced@.to_set() == tree_blocks(root, entries@.take(i as int)),
                    directories == count_class(entries@.take(i as int), EntryClass::Directory),
                    files == count_class(entries@.take(i as int), EntryClass::File),
                    directories + files <= i,
                    bytes == bytes_recovered(entries@.take(i as int)),
                    views(findings@) == after_cap + tree_findings(entries@.take(i as int)),
                decreases entries@.len() - i,
            {
                let ghost pre = entries@.take(i as int);
                let ghost post = entries@.take(i + 1);
                assert(post.drop_last() =~= pre);
                assert(post.last() == entries@[i as int]);
                proof {
                    lemma_tree_blocks_step(root, entries@, i as int);
                }
                match entries[i].class {
                    EntryClass::Directory => {
                        directories = directories + 1;
                        insert_distinct(&mut referenced, entries[i].block);
                        assert(set![entries@[i as int].block] =~= Set::empty().insert(entries@[i as int].block));
                        assert(claim_view(entries@, claims@) =~= occurrences(post));
                    },
                    EntryClass::Other => {
                        insert_distinct(&mut referenced, entries[i].block);
                        assert(set![entries@[i as int].block] =~= Set::empty().insert(entries@[i as int].block));
                        assert(claim_view(entries@, claims@) =~= occurrences(post));
                    },
                    EntryClass::File => {
                        files = files + 1;
                        scan_file(entries, i, &mut claims, &mut referenced, &mut bytes, findings);
                    },
                }
                i = i + 1;
                assert(referenced@.to_set() =~= tree_blocks(root, entries@.take(i as int)));
                assert(views(findings@) =~= after_cap + tree_findings(entries@.take(i as int)));
            }
            assert(entries@.take(i as int) =~= entries@);
            assert(views(findings@) =~= start + walk_findings(*walked));
            TreeScan { directories, files, bytes, referenced }
        },
    }
}


/// Whether a finding view has severity `s`.
pub open spec fn has_severity(s: Severity) -> spec_fn((Seq<char>, Severity, Seq<char>, Option<u32>)) -> bool {
    |v: (Seq<char>, Severity, Seq<char>, Option<u32>)| v.1 == s
}

/// Findings worst first, each severity keeping the order it was found in.
pub open spec fn worst_first(vs: Seq<(Seq<char>, Severity, Seq<char>, Option<u32>)>) -> Seq<
    (Seq<char>, Severity, Seq<char>, Option<u32>),
> {
    vs.filter(has_severity(Severity::Error)) + vs.filter(has_severity(Severity::Warning)) + vs.filter(
        has_severity(Severity::Info),
    )
}

/// Order findings worst first, so the first line a reader sees is the one
/// that matters. Findings of one severity keep their order.
pub fn rank_findings(findings: Vec<Finding>) -> (r: Vec<Finding>)
    ensures
        views(r@) == worst_first(views(findings@)),
{
    let ghost all = views(findings@);
    let mut rest = findings;
    let mut errors: Vec<Finding> = Vec::new();
    let mut warnings: Vec<Finding> = Vec::new();
    let mut infos: Vec<Finding> = Vec::new();
    let ghost mut taken: int = 0;
    while rest.len() > 0
        invariant
            0 <= taken <= all.len(),
            views(rest@) == all.subrange(taken, all.len() as int),
            views(errors@) == all.take(taken).filter(has_severity(Severity::Error)),
            views(warnings@) == all.take(taken).filter(has_severity(Severity::Warning)),
            views(infos@) == all.take(taken).filter(has_severity(Severity::Info)),
        decreases rest@.len(),
    {
        let ghost before = rest@;
        let f = rest.remove(0);
        let ghost v = finding_view(f);
        proof {
            assert(before.len() > 0);
            assert(views(before) == all.subrange(taken, all.len() as int));
            assert(views(before)[0] == finding_view(before[0]));
            assert(views(before).len() == before.len());
            assert(taken < all.len());
            assert(all.subrange(taken, all.len() as int)[0] == all[taken]);
            assert(views(before)[0] == all[taken]);
            assert(all[taken] == v);
            assert(rest@ =~= before.subrange(1, before.len() as int));
            assert(views(rest@) =~= views(before).subrange(1, before.len() as int));
            assert(all.subrange(taken, all.len() as int).subrange(1, before.len() as int) =~= all.subrange(taken + 1, all.len() as int));
            assert(views(rest@) =~= all.subrange(taken + 1, all.len() as int));
            assert(all.take(taken + 1) =~= all.take(taken).push(v));
            all.take(taken).lemma_filter_push(v, has_severity(Severity::Error));
            all.take(taken).lemma_filter_push(v, has_severity(Severity::Warning));
            all.take(taken).lemma_filter_push(v, has_severity(Severity::Info));
            taken = taken + 1;
        }
        match f.severity {
            Severity::Error => record(&mut errors, f),
            Severity::Warning => record(&mut warnings, f),
            Severity::Info => record(&mut infos, f),
        }
    }
    assert(all.take(taken) =~= all);
    let ghost e = views(errors@);
    let ghost w = views(warnings@);
    let ghost n = views(infos@);
    let ghost es = errors@;
    let ghost ws = warnings@;
    errors.append(&mut warnings);
    assert(views(errors@) =~= e + w) by {
        assert(errors@ =~= es + ws);
    }
    let ghost ews = errors@;
    let ghost is = infos@;
    errors.append(&mut infos);
    assert(views(errors@) =~= e + w + n) by {
        assert(errors@ =~= ews + is);
    }
    errors
}

/// The severity of a fault the inspection already reports.
pub open spec fn severity_of_code(code: Seq<char>) -> Severity {
    if code == "datestamp-day-zero"@ || code == "datestamp-minutes-range"@ || code
        == "datestamp-ticks-range"@ {
        Severity::Info
    } else if code == "rootblock-checksum"@ {
        Severity::Error
    } else {
        Severity::Warning
    }
}

/// Severity for the faults an inspection already knows about: datestamp
/// oddities are cosmetic, a damaged rootblock is an error, and everything else
/// is structural but survivable.
pub fn severity_of(code: &str) -> (s: Severity)
    ensures
        s == severity_of_code(code@),
{
    if str_is(code, "datestamp-day-zero") || str_is(code, "datestamp-minutes-range") || str_is(
        code,
        "datestamp-ticks-range",
    ) {
        Severity::Info
    } else if str_is(code, "rootblock-checksum") {
        Severity::Error
    } else {
        Severity::Warning
    }
}

/// Whether two strings hold the same characters.
pub fn str_is(a: &str, b: &str) -> (r: bool)
    ensures
        r == (a@ == b@),
{
    broadcast use vstd::string::group_string_axioms;
    let mut chars: Vec<char> = Vec::new();
    let ghost mut seen: int = 0;
    for c in it: a.chars()
        invariant
            it.seq() == a@,
            seen == it.index(),
            seen <= a@.len(),
            chars@ == a@.take(seen),
    {
        chars.push(c);
        proof {
            seen = seen + 1;
        }
        assert(chars@ =~= a@.take(seen));
    }
    assert(chars@ =~= a@);
    equals_literal(&chars, b)
}


/// How far an image got towards a mounted volume.
#[derive(Debug)]
pub enum Mount {
    /// No geometry could be established for the container.
    NoGeometry,
    /// The image is shorter than the geometry it claims.
    Truncated,
    /// The geometry is sound but no AmigaDOS volume mounts.
    NoVolume,
    /// A volume mounted.
    Mounted {
        /// Its rootblock.
        root: u32,
        /// The walk of its directory tree, where the tree could be walked.
        walked: Option<Walked>,
        /// Its bitmap, where the bitmap could be read.
        bitmap: Option<BitmapFacts>,
    },
}

/// The inspection's own faults, as findings.
pub open spec fn fault_views(faults: Seq<Fault>) -> Seq<(Seq<char>, Severity, Seq<char>, Option<u32>)> {
    faults.map_values(|f: Fault| (f.code@, severity_of_code(f.code@), f.message@, None))
}

/// The reason given, or a fallback.
pub open spec fn reason_or(reason: Option<String>, fallback: Seq<char>) -> Seq<char> {
    match reason {
        Some(r) => r@,
        None => fallback,
    }
}

/// The blocks the scan of `walked` found in use.
pub open spec fn scanned(root: u32, walked: Option<Walked>) -> Set<u32> {
    match walked {
        None => set![root],
        Some(w) => tree_blocks(root, w.entries@),
    }
}

/// Everything in use on a mounted volume with this bitmap.
pub open spec fn volume_in_use(root: u32, walked: Option<Walked>, b: BitmapFacts) -> Set<u32> {
    scanned(root, walked).insert(root).union(b.blocks@.to_set())
}

/// What the bitmap cross-check adds on a mounted volume.
pub open spec fn bitmap_part(root: u32, walked: Option<Walked>, bitmap: Option<BitmapFacts>) -> Seq<
    (Seq<char>, Severity, Seq<char>, Option<u32>),
> {
    match bitmap {
        None => Seq::empty(),
        Some(b) => {
            let used = volume_in_use(root, walked, b);
            bitmap_findings(
                b,
                live_but_free(used, b.allocated@).len(),
                unreachable(b.allocated@, used).len(),
            )
        },
    }
}

/// Everything an examination reports, worst first.
pub open spec fn examined(faults: Seq<Fault>, absent: Option<String>, mount: Mount) -> Seq<
    (Seq<char>, Severity, Seq<char>, Option<u32>),
> {
    let base = fault_views(faults);
    worst_first(
        match mount {
            Mount::NoGeometry => base.push(
                (
                    "container-unsupported"@,
                    Severity::Info,
                    reason_or(absent, "no geometry could be established"@),
                    None,
                ),
            ),
            Mount::Truncated => base.push(
                (
                    "image-truncated"@,
                    Severity::Error,
                    "the image is shorter than the geometry it claims"@,
                    None,
                ),
            ),
            Mount::NoVolume => base.push(
                ("no-volume"@, Severity::Info, reason_or(absent, "no AmigaDOS volume"@), None),
            ),
            Mount::Mounted { root, walked, bitmap } => base + walk_findings(walked) + bitmap_part(
                root,
                walked,
                bitmap,
            ),
        },
    )
}

/// The reason given, or a fallback.
fn reason_or_else(reason: &Option<String>, fallback: &str) -> (s: String)
    ensures
        s@ == reason_or(*reason, fallback@),
{
    match reason {
        Some(r) => r.clone(),
        None => fallback.to_owned(),
    }
}

/// Examine an image and report its condition.
///
/// Never fails on a bad image: an unreadable or unmountable one is a finding,
/// not an error, which is the whole point of a health report. `faults` are
/// what the inspection already found; `absent` is why it found no volume.
pub fn examine(faults: &Vec<Fault>, absent: &Option<String>, mount: &Mount) -> (h: Health)
    ensures
        views(h.findings@) == examined(faults@, *absent, *mount),
        forall|i: int, j: int|
            0 <= i < j < h.findings@.len() ==> rank(h.findings@[i].severity) >= rank(h.findings@[j].severity),
        match mount {
            Mount::Mounted { root, walked, bitmap } => {
                &&& match walked {
                    None => h.directories == 0 && h.files == 0 && h.bytes_recovered == 0,
                    Some(w) => {
                        &&& h.directories == count_class(w.entries@, EntryClass::Directory)
                        &&& h.files == count_class(w.entries@, EntryClass::File)
                        &&& h.bytes_recovered == bytes_recovered(w.entries@)
                    },
                }
                &&& match bitmap {
                    None => h.bitmap is None,
                    Some(b) => h.bitmap matches Some(x) && reports(x, volume_in_use(*root, *walked, *b), *b),
                }
            },
            _ => h.bitmap is None && h.directories == 0 && h.files == 0 && h.bytes_recovered == 0,
        },
{
    proof {
        lemma_examined_worst_first(faults@, *absent, *mount);
    }
    let mut findings: Vec<Finding> = Vec::new();
    let mut i: usize = 0;
    while i < faults.len()
        invariant
            i <= faults@.len(),
            views(findings@) == fault_views(faults@.take(i as int)),
        decreases faults@.len() - i,
    {
        let f = &faults[i];
        record(&mut findings, Finding::new(f.code, severity_of(f.code), f.message.clone()));
        i = i + 1;
        assert(fault_views(faults@.take(i as int)) =~= fault_views(faults@.take(i - 1)).push(
            finding_view(Finding { code: f.code, severity: severity_of_code(f.code@), message: f.message, block: None }),
        ));
    }
    assert(faults@.take(i as int) =~= faults@);
    let ghost base = views(findings@);
    match mount {
        Mount::NoGeometry => {
            record(&mut findings, Finding::new(
                "container-unsupported",
                Severity::Info,
                reason_or_else(absent, "no geometry could be established"),
            ));
            let ranked = rank_findings(findings);
            proof {
                lemma_ranked_views(ranked@, examined(faults@, *absent, *mount));
            }
            Health { bitmap: None, directories: 0, files: 0, bytes_recovered: 0, findings: ranked }
        },
        Mount::Truncated => {
            record(&mut findings, Finding::new(
                "image-truncated",
                Severity::Error,
                "the image is shorter than the geometry it claims".to_owned(),
            ));
            let ranked = rank_findings(findings);
            proof {
                lemma_ranked_views(ranked@, examined(faults@, *absent, *mount));
            }
            Health { bitmap: None, directories: 0, files: 0, bytes_recovered: 0, findings: ranked }
        },
        Mount::NoVolume => {
            record(&mut findings, Finding::new(
                "no-volume",
                Severity::Info,
                reason_or_else(absent, "no AmigaDOS volume"),
            ));
            let ranked = rank_findings(findings);
            proof {
                lemma_ranked_views(ranked@, examined(faults@, *absent, *mount));
            }
            Health { bitmap: None, directories: 0, files: 0, bytes_recovered: 0, findings: ranked }
        },
        Mount::Mounted { root, walked, bitmap } => {
            let scan = scan_tree(*root, walked, &mut findings);
            let health = match bitmap {
                Some(b) => Some(cross_check_bitmap(*root, &scan.referenced, b, &mut findings)),
                None => None,
            };
            assert(views(findings@) =~= base + walk_findings(*walked) + bitmap_part(*root, *walked, *bitmap));
            let ranked = rank_findings(findings);
            proof {
                lemma_ranked_views(ranked@, examined(faults@, *absent, *mount));
            }
            Health {
                bitmap: health,
                directories: scan.directories,
                files: scan.files,
                bytes_recovered: scan.bytes,
                findings: ranked,
            }
        },
    }
}


/// The model of one finding as JSON.
pub open spec fn finding_json(f: Finding) -> JsonView {
    JsonView::Obj(
        seq![
            ("code"@, JsonView::Str(f.code@)),
            ("severity"@, JsonView::Str(severity_name(f.severity)@)),
            ("message"@, JsonView::Str(f.message@)),
            ("block"@, match f.block {
                Some(b) => JsonView::Num(b as nat),
                None => JsonView::Null,
            }),
        ],
    )
}

/// How full the bitmap says the volume is, as a whole percentage.
pub open spec fn fill_percent(marked_used: nat, covered: nat) -> nat {
    if covered == 0 {
        0
    } else if marked_used * 100 > u64::MAX {
        (u64::MAX as nat) / covered
    } else {
        (marked_used * 100) / covered
    }
}

/// The model of the bitmap cross-check as JSON.
pub open spec fn bitmap_json(b: BitmapHealth) -> JsonView {
    JsonView::Obj(
        seq![
            ("marked_used"@, JsonView::Num(b.marked_used as nat)),
            ("actually_used"@, JsonView::Num(b.actually_used as nat)),
            ("orphaned"@, JsonView::Num(b.orphaned as nat)),
            ("referenced_but_free"@, JsonView::Num(b.referenced_but_free as nat)),
            ("flagged_valid"@, JsonView::Bool(b.flagged_valid)),
            ("covered"@, JsonView::Num(b.covered as nat)),
            ("fill_percent"@, JsonView::Num(fill_percent(b.marked_used as nat, b.covered as nat))),
        ],
    )
}

/// The model of a health report as JSON, given the inspection's own.
pub open spec fn health_json(h: Health, image: JsonView) -> JsonView {
    let n = h.findings@.len() as int;
    JsonView::Obj(
        seq![
            ("image"@, image),
            ("tree"@, JsonView::Obj(
                seq![
                    ("directories"@, JsonView::Num(h.directories as nat)),
                    ("files"@, JsonView::Num(h.files as nat)),
                    ("bytes_recovered"@, JsonView::Num(h.bytes_recovered as nat)),
                ],
            )),
            ("bitmap"@, match h.bitmap {
                Some(b) => bitmap_json(b),
                None => JsonView::Null,
            }),
            ("summary"@, JsonView::Obj(
                seq![
                    ("info"@, JsonView::Num(count_severity(h.findings@, Severity::Info, n))),
                    ("warning"@, JsonView::Num(count_severity(h.findings@, Severity::Warning, n))),
                    ("error"@, JsonView::Num(count_severity(h.findings@, Severity::Error, n))),
                    ("worst"@, match worst_in(h.findings@, n) {
                        Some(s) => JsonView::Str(severity_name(s)@),
                        None => JsonView::Null,
                    }),
                ],
            )),
            ("findings"@, JsonView::Arr(h.findings@.map_values(|f: Finding| finding_json(f)))),
        ],
    )
}

/// One finding as JSON.
fn finding_to_json(f: &Finding) -> (v: Value)
    ensures
        v@ == finding_json(*f),
{
    let block = match f.block {
        Some(b) => Value::Num(b as u64),
        None => Value::Null,
    };
    let fields = vec![
        ("code", Value::str(f.code)),
        ("severity", Value::str(f.severity.as_str())),
        ("message", Value::str(f.message.as_str())),
        ("block", block),
    ];
    proof {
        lemma_fields_view(fields@);
        assert(fields_view(fields@) =~= finding_json(*f)->Obj_0);
    }
    Value::Obj(fields)
}

/// The bitmap cross-check as JSON.
fn bitmap_to_json(b: &BitmapHealth) -> (v: Value)
    ensures
        v@ == bitmap_json(*b),
{
    // Integer arithmetic: a percentage of block counts has no business going
    // through a float.
    let marked = b.marked_used as u64;
    let scaled = if marked > u64::MAX / 100 {
        u64::MAX
    } else {
        marked * 100
    };
    let fill = if b.covered == 0 {
        0
    } else {
        scaled / (b.covered as u64)
    };
    let fields = vec![
        ("marked_used", Value::Num(b.marked_used as u64)),
        ("actually_used", Value::Num(b.actually_used as u64)),
        ("orphaned", Value::Num(b.orphaned as u64)),
        ("referenced_but_free", Value::Num(b.referenced_but_free as u64)),
        ("flagged_valid", Value::Bool(b.flagged_valid)),
        ("covered", Value::Num(b.covered as u64)),
        ("fill_percent", Value::Num(fill)),
    ];
    proof {
        lemma_fields_view(fields@);
        assert(fields_view(fields@) =~= bitmap_json(*b)->Obj_0);
    }
    Value::Obj(fields)
}

impl Health {
    /// The report as JSON, around the JSON of the inspection it was made from.
    pub fn to_json(&self, inspection: &crate::inspect::Inspection) -> (v: Value)
        requires
            crate::inspect::reportable(*inspection),
        ensures
            v@ == health_json(*self, crate::inspect::inspection_json(*inspection)),
    {
        self.around(inspection.to_json())
    }

    /// The report as JSON, around `image`.
    fn around(&self, image: Value) -> (v: Value)
        ensures
            v@ == health_json(*self, image@),
    {
        let (info, warning, error) = self.counts();
        let tree = vec![
            ("directories", Value::Num(self.directories as u64)),
            ("files", Value::Num(self.files as u64)),
            ("bytes_recovered", Value::Num(self.bytes_recovered)),
        ];
        proof {
            lemma_fields_view(tree@);
        }
        let bitmap = match &self.bitmap {
            Some(b) => bitmap_to_json(b),
            None => Value::Null,
        };
        let worst = match self.worst() {
            Some(s) => Value::str(s.as_str()),
            None => Value::Null,
        };
        let summary = vec![
            ("info", Value::Num(info as u64)),
            ("warning", Value::Num(warning as u64)),
            ("error", Value::Num(error as u64)),
            ("worst", worst),
        ];
        proof {
            lemma_fields_view(summary@);
        }
        let mut items: Vec<Value> = Vec::new();
        let mut i: usize = 0;
        while i < self.findings.len()
            invariant
                i <= self.findings@.len(),
                items_view(items@) == self.findings@.take(i as int).map_values(|f: Finding| finding_json(f)),
            decreases self.findings@.len() - i,
        {
            let ghost before = items@;
            items.push(finding_to_json(&self.findings[i]));
            assert(items@.drop_last() =~= before);
            i = i + 1;
            assert(items_view(items@) =~= self.findings@.take(i as int).map_values(
                |f: Finding| finding_json(f),
            ));
        }
        assert(self.findings@.take(i as int) =~= self.findings@);
        let fields = vec![
            ("image", image),
            ("tree", Value::Obj(tree)),
            ("bitmap", bitmap),
            ("summary", Value::Obj(summary)),
            ("findings", Value::Arr(items)),
        ];
        proof {
            lemma_fields_view(fields@);
            assert(fields_view(tree@) =~= health_json(*self, image@)->Obj_0[1].1->Obj_0);
            assert(fields_view(summary@) =~= health_json(*self, image@)->Obj_0[3].1->Obj_0);
            assert(fields_view(fields@) =~= health_json(*self, image@)->Obj_0);
        }
        Value::Obj(fields)
    }
}


proof fn lemma_filter_all_have(vs: Seq<(Seq<char>, Severity, Seq<char>, Option<u32>)>, s: Severity)
    ensures
        forall|i: int| 0 <= i < vs.filter(has_severity(s)).len() ==> #[trigger] vs.filter(has_severity(s))[i].1 == s,
{
    assert forall|i: int| 0 <= i < vs.filter(has_severity(s)).len() implies #[trigger] vs.filter(has_severity(s))[i].1 == s by {
        vs.lemma_filter_pred(has_severity(s), i);
    }
}

proof fn lemma_split_count(vs: Seq<(Seq<char>, Severity, Seq<char>, Option<u32>)>)
    ensures
        vs.filter(has_severity(Severity::Error)).len() + vs.filter(has_severity(Severity::Warning)).len()
            + vs.filter(has_severity(Severity::Info)).len() == vs.len(),
    decreases vs.len(),
{
    if vs.len() > 0 {
        let init = vs.drop_last();
        lemma_split_count(init);
        assert(vs =~= init.push(vs.last()));
        init.lemma_filter_push(vs.last(), has_severity(Severity::Error));
        init.lemma_filter_push(vs.last(), has_severity(Severity::Warning));
        init.lemma_filter_push(vs.last(), has_severity(Severity::Info));
    }
}

/// Ranking keeps every finding and puts them worst first: no finding is
/// ever followed by a worse one, and as many come out as went in.
pub proof fn lemma_worst_first(vs: Seq<(Seq<char>, Severity, Seq<char>, Option<u32>)>)
    ensures
        worst_first(vs).len() == vs.len(),
        forall|i: int, j: int|
            0 <= i < j < worst_first(vs).len() ==> rank(worst_first(vs)[i].1) >= rank(
                worst_first(vs)[j].1,
            ),
{
    lemma_split_count(vs);
    let e = vs.filter(has_severity(Severity::Error));
    let w = vs.filter(has_severity(Severity::Warning));
    let n = vs.filter(has_severity(Severity::Info));
    lemma_filter_all_have(vs, Severity::Error);
    lemma_filter_all_have(vs, Severity::Warning);
    lemma_filter_all_have(vs, Severity::Info);
    let r = worst_first(vs);
    assert forall|i: int| 0 <= i < r.len() implies (i < e.len() ==> r[i].1 == Severity::Error) && (
    e.len() <= i < e.len() + w.len() ==> r[i].1 == Severity::Warning) && (e.len() + w.len() <= i
        ==> r[i].1 == Severity::Info) by {
        if i < e.len() {
            assert(r[i] == e[i]);
        } else if i < e.len() + w.len() {
            assert(r[i] == w[i - e.len()]);
        } else {
            assert(r[i] == n[i - e.len() - w.len()]);
        }
    }
}

/// Findings whose views are in worst-first order are themselves.
proof fn lemma_ranked_views(fs: Seq<Finding>, vs: Seq<(Seq<char>, Severity, Seq<char>, Option<u32>)>)
    requires
        views(fs) == vs,
        forall|i: int, j: int| 0 <= i < j < vs.len() ==> rank(vs[i].1) >= rank(vs[j].1),
    ensures
        forall|i: int, j: int| 0 <= i < j < fs.len() ==> rank(fs[i].severity) >= rank(fs[j].severity),
{
    assert forall|i: int, j: int| 0 <= i < j < fs.len() implies rank(fs[i].severity) >= rank(fs[j].severity) by {
        assert(vs[i] == finding_view(fs[i]));
        assert(vs[j] == finding_view(fs[j]));
    }
}

/// An examination reports its findings worst first, whatever it got to:
/// whether the volume mounted, did not, or the image was truncated.
pub proof fn lemma_examined_worst_first(faults: Seq<Fault>, absent: Option<String>, mount: Mount)
    ensures
        forall|i: int, j: int|
            0 <= i < j < examined(faults, absent, mount).len() ==> rank(
                examined(faults, absent, mount)[i].1,
            ) >= rank(examined(faults, absent, mount)[j].1),
{
    let base = fault_views(faults);
    match mount {
        Mount::NoGeometry => {
            lemma_worst_first(base.push(
                ("container-unsupported"@, Severity::Info, reason_or(absent, "no geometry could be established"@), None),
            ));
        },
        Mount::Truncated => {
            lemma_worst_first(base.push(
                ("image-truncated"@, Severity::Error, "the image is shorter than the geometry it claims"@, None),
            ));
        },
        Mount::NoVolume => {
            lemma_worst_first(base.push(("no-volume"@, Severity::Info, reason_or(absent, "no AmigaDOS volume"@), None)));
        },
        Mount::Mounted { root, walked, bitmap } => {
            lemma_worst_first(base + walk_findings(walked) + bitmap_part(root, walked, bitmap));
        },
    }
}

/// Every finding has exactly one severity, so the three counts add up to the
/// number of findings.
pub proof fn lemma_counts_cover(fs: Seq<Finding>, m: int)
    requires
        0 <= m <= fs.len(),
    ensures
        count_severity(fs, Severity::Info, m) + count_severity(fs, Severity::Warning, m) + count_severity(
            fs,
            Severity::Error,
            m,
        ) == m,
    decreases m,
{
    if m > 0 {
        lemma_counts_cover(fs, m - 1);
    }
}

/// A report is sound exactly when nothing it found is a warning or an error.
pub proof fn lemma_sound_iff_only_info(fs: Seq<Finding>, m: int)
    requires
        0 <= m <= fs.len(),
    ensures
        (match worst_in(fs, m) {
            Some(w) => rank(w) < 1,
            None => true,
        }) == (forall|i: int| 0 <= i < m ==> #[trigger] fs[i].severity == Severity::Info),
    decreases m,
{
    if m > 0 {
        lemma_sound_iff_only_info(fs, m - 1);
        if !(forall|i: int| 0 <= i < m - 1 ==> #[trigger] fs[i].severity == Severity::Info) {
            let k = choose|k: int| 0 <= k < m - 1 && !(fs[k].severity == Severity::Info);
            assert(!(fs[k].severity == Severity::Info));
        }
    }
}


/// What was examined: the volume, where it mounted.
#[derive(Debug, Clone)]
pub struct Examined {
    /// The volume's name.
    pub volume: String,
    /// The partition it is on, on a partitioned device.
    pub partition: Option<String>,
    /// Where its rootblock is.
    pub rootblock: u64,
}

/// What the directory caches of a DCFS volume say against its entries.
#[derive(Debug, Clone, Copy)]
pub struct DirCacheHealth {
    /// Cached records read.
    pub records: usize,
    /// Cache blocks read.
    pub blocks: usize,
    /// Directories whose cache was compared.
    pub directories: usize,
    /// Records that disagree with the directory entries.
    pub disagreements: usize,
}

/// The bitmap cross-check grades its two directions differently: blocks in
/// use but marked free are an error, since the next write overwrites live
/// data, and are reported exactly when there are some; blocks marked in use
/// that nothing reaches are only lost space, a warning, reported exactly when
/// there are some. Every other bitmap finding is a warning, so the
/// cross-check's worst grade is an error exactly when live data is marked
/// free.
pub proof fn bitmap_directions_are_graded_apart(f: BitmapFacts, live_free: nat, orphaned: nat)
    ensures
        ({
            let fs = bitmap_findings(f, live_free, orphaned);
            &&& forall|i: int| #![trigger fs[i]]
                0 <= i < fs.len() && fs[i].0 == "referenced-but-free"@ ==> fs[i].1 == Severity::Error
            &&& forall|i: int| #![trigger fs[i]]
                0 <= i < fs.len() && fs[i].0 == "orphaned-blocks"@ ==> fs[i].1 == Severity::Warning
            &&& forall|i: int| #![trigger fs[i]]
                0 <= i < fs.len() && fs[i].0 != "referenced-but-free"@ ==> fs[i].1 == Severity::Warning
            &&& (exists|i: int| #![trigger fs[i]] 0 <= i < fs.len() && fs[i].1 == Severity::Error) <==> live_free > 0
            &&& (exists|i: int| #![trigger fs[i]] 0 <= i < fs.len() && fs[i].0 == "orphaned-blocks"@) <==> orphaned > 0
            &&& (exists|i: int| #![trigger fs[i]] 0 <= i < fs.len() && fs[i].0 == "referenced-but-free"@) <==> live_free > 0
        }),
{
    reveal_strlit("referenced-but-free");
    reveal_strlit("orphaned-blocks");
    reveal_strlit("bitmap-flag-clear");
    reveal_strlit("bitmap-checksum");
    reveal_strlit("bitmap-incomplete");
    let flag: Seq<(Seq<char>, Severity, Seq<char>, Option<u32>)> = if f.flagged_valid {
        Seq::empty()
    } else {
        seq![("bitmap-flag-clear"@, Severity::Warning, "bitmap-valid flag is clear \u{2014} the map may be stale (AV-003)"@, None)]
    };
    let sums = checksum_findings(f.bad_checksums@);
    let inc: Seq<(Seq<char>, Severity, Seq<char>, Option<u32>)> = if f.incomplete {
        seq![("bitmap-incomplete"@, Severity::Warning, "the bitmap does not cover the whole volume"@, None)]
    } else {
        Seq::empty()
    };
    let live: Seq<(Seq<char>, Severity, Seq<char>, Option<u32>)> = if live_free > 0 {
        seq![("referenced-but-free"@, Severity::Error, live_but_free_message(live_free), None)]
    } else {
        Seq::empty()
    };
    let lost: Seq<(Seq<char>, Severity, Seq<char>, Option<u32>)> = if orphaned > 0 {
        seq![("orphaned-blocks"@, Severity::Warning, unreachable_message(orphaned), None)]
    } else {
        Seq::empty()
    };
    let fs = bitmap_findings(f, live_free, orphaned);
    let front = flag + sums + inc;
    assert(fs =~= front + live + lost);
    assert("referenced-but-free"@ != "orphaned-blocks"@) by {
        assert("referenced-but-free"@[0] != "orphaned-blocks"@[0]);
    }
    assert forall|i: int| 0 <= i < front.len() implies #[trigger] front[i].1 == Severity::Warning && front[i].0
        != "referenced-but-free"@ && front[i].0 != "orphaned-blocks"@ by {
        if i < flag.len() {
            assert(front[i] == flag[i]);
            assert("bitmap-flag-clear"@[0] != "referenced-but-free"@[0]);
            assert("bitmap-flag-clear"@[0] != "orphaned-blocks"@[0]);
        } else if i < flag.len() + sums.len() {
            assert(front[i] == sums[i - flag.len()]);
            assert("bitmap-checksum"@[0] != "referenced-but-free"@[0]);
            assert("bitmap-checksum"@[0] != "orphaned-blocks"@[0]);
        } else {
            assert(front[i] == inc[i - flag.len() - sums.len()]);
            assert("bitmap-incomplete"@[0] != "referenced-but-free"@[0]);
            assert("bitmap-incomplete"@[0] != "orphaned-blocks"@[0]);
        }
    }
    if live_free > 0 {
        assert(fs[front.len() as int] == live[0]);
    }
    if orphaned > 0 {
        assert(fs[(front.len() + live.len()) as int] == lost[0]);
    }
    assert forall|i: int| #![trigger fs[i]] 0 <= i < fs.len() implies (fs[i].1 == Severity::Error <==> fs[i].0
        == "referenced-but-free"@) && (fs[i].0 == "orphaned-blocks"@ ==> fs[i].1 == Severity::Warning) && (fs[i].1
        == Severity::Error || fs[i].1 == Severity::Warning) && (fs[i].0 == "orphaned-blocks"@ ==> orphaned > 0)
        && (fs[i].0 == "referenced-but-free"@ ==> live_free > 0) by {
        if i < front.len() {
            assert(fs[i] == front[i]);
        } else if i < front.len() + live.len() {
            assert(fs[i] == live[i - front.len()]);
        } else {
            assert(fs[i] == lost[i - front.len() - live.len()]);
        }
    }
}

} // verus!
