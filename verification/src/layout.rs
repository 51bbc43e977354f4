//! What occupies each part of a disk.
//!
//! A map is emitted as spans of consecutive blocks sharing a region and an
//! owner, and the spans tile the image with no gaps and no overlaps,
//! `Unclaimed` where nothing else applies — so a consumer never has to decide
//! what to do about a byte the map forgot.
use vstd::prelude::*;

use crate::json::{JsonView, Value, fields_view, items_view, lemma_fields_view};

verus! {

/// What part of a disk a block belongs to.
#[derive(Debug, Clone, Copy, PartialEq, Eq, Structural)]
pub enum Region {
    /// The reserved blocks a disk boots from.
    Bootblock,
    /// The volume's rootblock.
    Rootblock,
    /// A block of the allocation bitmap.
    Bitmap,
    /// A directory's header block — where its name lives.
    Directory,
    /// A file's header or data.
    File,
    /// Inside the volume, and nothing reaches it: deleted, hidden, or damage.
    Unclaimed,
}

/// The name a region is reported by.
pub open spec fn region_name(r: Region) -> &'static str {
    match r {
        Region::Bootblock => "bootblock",
        Region::Rootblock => "rootblock",
        Region::Bitmap => "bitmap",
        Region::Directory => "directory",
        Region::File => "file",
        Region::Unclaimed => "unclaimed",
    }
}

/// A region's one-line description, for a legend.
pub open spec fn region_description(r: Region) -> &'static str {
    match r {
        Region::Bootblock => "boot code and the dostype \u{2014} where protection lives",
        Region::Rootblock => "the volume's name, datestamps and hash table",
        Region::Bitmap => "which blocks are free; a set bit means free",
        Region::Directory => "a directory header, holding its name",
        Region::File => "a file's header or its data",
        Region::Unclaimed => "nothing points here: free space, deleted data, or damage",
    }
}

/// The position of a region in report order.
pub open spec fn region_index(r: Region) -> int {
    match r {
        Region::Bootblock => 0,
        Region::Rootblock => 1,
        Region::Bitmap => 2,
        Region::Directory => 3,
        Region::File => 4,
        Region::Unclaimed => 5,
    }
}

/// Every region, in report order.
pub open spec fn all_regions() -> Seq<Region> {
    seq![
        Region::Bootblock,
        Region::Rootblock,
        Region::Bitmap,
        Region::Directory,
        Region::File,
        Region::Unclaimed,
    ]
}

impl Region {
    /// The name this region is reported by.
    pub fn name(self) -> (r: &'static str)
        ensures
            r == region_name(self),
    {
        match self {
            Region::Bootblock => "bootblock",
            Region::Rootblock => "rootblock",
            Region::Bitmap => "bitmap",
            Region::Directory => "directory",
            Region::File => "file",
            Region::Unclaimed => "unclaimed",
        }
    }

    /// A one-line description, for a legend.
    pub fn describes(self) -> (r: &'static str)
        ensures
            r == region_description(self),
    {
        match self {
            Region::Bootblock => "boot code and the dostype \u{2014} where protection lives",
            Region::Rootblock => "the volume's name, datestamps and hash table",
            Region::Bitmap => "which blocks are free; a set bit means free",
            Region::Directory => "a directory header, holding its name",
            Region::File => "a file's header or its data",
            Region::Unclaimed => "nothing points here: free space, deleted data, or damage",
        }
    }

    /// The number this region is reported by across the C interface: its
    /// position in report order.
    pub fn code(self) -> (r: u32)
        ensures
            r == region_index(self),
    {
        match self {
            Region::Bootblock => 0,
            Region::Rootblock => 1,
            Region::Bitmap => 2,
            Region::Directory => 3,
            Region::File => 4,
            Region::Unclaimed => 5,
        }
    }

    /// The region with report position `code`, if there is one. A code this
    /// build does not know is `None`, never a wrong region.
    pub fn from_code(code: u32) -> (r: Option<Region>)
        ensures
            code < 6 ==> r == Some(all_regions()[code as int]),
            code >= 6 ==> r is None,
    {
        match code {
            0 => Some(Region::Bootblock),
            1 => Some(Region::Rootblock),
            2 => Some(Region::Bitmap),
            3 => Some(Region::Directory),
            4 => Some(Region::File),
            5 => Some(Region::Unclaimed),
            _ => None,
        }
    }
}

/// A region's number reads back as the region: a caller that is handed a
/// code and asks for its name gets the name of the region that was meant.
pub proof fn lemma_region_codes_round_trip(r: Region)
    ensures
        0 <= region_index(r) < 6,
        all_regions()[region_index(r)] == r,
{
}

/// What claims one block: its region, and the entry that owns it where one does.
#[derive(Debug, Clone)]
pub struct Owned {
    /// What the block is.
    pub region: Region,
    /// The path of the entry that owns it.
    pub owner: Option<String>,
    /// The block of the directory entry that owns it.
    pub owner_block: Option<u32>,
}

/// A run of consecutive blocks sharing a region and an owner.
#[derive(Debug, Clone)]
pub struct Span {
    /// First byte, inclusive.
    pub start: u64,
    /// Last byte, exclusive.
    pub end: u64,
    /// First block of the run.
    pub block: u64,
    /// How many blocks it covers.
    pub blocks: u64,
    /// What it is.
    pub region: Region,
    /// The path of the entry that owns it, where one does.
    pub owner: Option<String>,
    /// The block of the directory entry that owns it, where one does.
    pub owner_block: Option<u32>,
}

/// A map of the whole image.
#[derive(Debug, Clone)]
pub struct Layout {
    /// Every span, in offset order, tiling the image with no gaps.
    pub spans: Vec<Span>,
    /// The block size the map is in.
    pub block_size: u32,
    /// How many blocks the image holds.
    pub blocks: u64,
    /// Whether a volume mounted. When it did not, everything outside the
    /// reserved blocks is `Unclaimed`.
    pub mounted: bool,
}

/// Where block `block` starts, in bytes, for blocks of `size` bytes.
#[verifier::opaque]
pub open spec fn byte_offset(block: int, size: int) -> int {
    block * size
}

/// What block `b` is, by a per-block claim table: unclaimed where nothing claims it.
pub open spec fn claim_of(claims: Seq<Option<Owned>>, b: int) -> (
    Region,
    Option<Seq<char>>,
    Option<u32>,
) {
    match claims[b] {
        Some(o) => (o.region, owner_view(o.owner), o.owner_block),
        None => (Region::Unclaimed, None, None),
    }
}

/// An owner's path as characters.
pub open spec fn owner_view(o: Option<String>) -> Option<Seq<char>> {
    match o {
        Some(s) => Some(s@),
        None => None,
    }
}

#[verifier::opaque]
/// The spans tile blocks `0..n` in order, with no gaps and no overlaps; each
/// span is one region and one owner, taken from the claims of its blocks; two
/// neighbouring spans never share both; and byte offsets are block offsets
/// times the block size.
pub open spec fn tiles(spans: Seq<Span>, claims: Seq<Option<Owned>>, n: int, size: int) -> bool {
    &&& n == 0 <==> spans.len() == 0
    &&& spans.len() > 0 ==> spans[0].block == 0
    &&& spans.len() > 0 ==> spans.last().block + spans.last().blocks == n
    &&& forall|k: int, j: int|
        #![trigger spans[k], spans[j]]
        0 <= k && j == k + 1 && j < spans.len() ==> spans[k].block + spans[k].blocks
            == spans[j].block
    &&& forall|k: int| 0 <= k < spans.len() ==> span_ok(#[trigger] spans[k], claims, size)
    &&& forall|k: int, j: int|
        #![trigger spans[k], spans[j]]
        0 <= k && j == k + 1 && j < spans.len() ==> !(spans[k].region == spans[j].region
            && owner_view(spans[k].owner) == owner_view(spans[j].owner))
}

/// One span: nonempty, its offsets are its blocks times the block size, every
/// block in it has the span's region and owner, and its owning entry is the
/// first block's.
pub open spec fn span_ok(s: Span, claims: Seq<Option<Owned>>, size: int) -> bool {
    &&& s.blocks >= 1
    &&& s.start == byte_offset(s.block as int, size)
    &&& s.end == byte_offset(s.block + s.blocks, size)
    &&& s.owner_block == claim_of(claims, s.block as int).2
    &&& forall|b: int|
        s.block <= b < s.block + s.blocks ==> #[trigger] claim_of(claims, b).0 == s.region
            && claim_of(claims, b).1 == owner_view(s.owner)
}

} // verus!

verus! {

/// A copy of an owner's path.
fn clone_owner(o: &Option<String>) -> (r: Option<String>)
    ensures
        owner_view(r) == owner_view(*o),
{
    match o {
        Some(s) => Some(s.clone()),
        None => None,
    }
}

/// Whether two owners are the same path.
fn same_owner(a: &Option<String>, b: &Option<String>) -> (r: bool)
    ensures
        r == (owner_view(*a) == owner_view(*b)),
{
    match (a, b) {
        (Some(x), Some(y)) => x.eq(y),
        (None, None) => true,
        _ => false,
    }
}

/// The last span grown by one block.
pub open spec fn grown(s: Span, size: int) -> Span {
    Span { end: (s.end + size) as u64, blocks: (s.blocks + 1) as u64, ..s }
}

proof fn lemma_tiles_grow(spans: Seq<Span>, claims: Seq<Option<Owned>>, b: int, size: int)
    requires
        0 <= b < claims.len(),
        size >= 0,
        spans.len() > 0,
        tiles(spans, claims, b, size),
        (b + 1) * size <= u64::MAX,
        b + 1 <= u64::MAX,
        spans.last().region == claim_of(claims, b).0,
        owner_view(spans.last().owner) == claim_of(claims, b).1,
    ensures
        tiles(spans.update(spans.len() - 1, grown(spans.last(), size)), claims, b + 1, size),
{
    reveal(tiles);
    let count = spans.len();
    let last = spans.last();
    let g = grown(last, size);
    let next = spans.update(count - 1, g);
    assert(last.block + last.blocks == b);
    assert(span_ok(last, claims, size));
    reveal(byte_offset);
    assert(last.end == b * size);
    assert(b * size + size == (b + 1) * size) by (nonlinear_arith);
    assert(last.end + size == (b + 1) * size);
    assert(g.blocks == last.blocks + 1);
    assert(g.end == byte_offset(g.block + g.blocks, size));
    assert forall|x: int| g.block <= x < g.block + g.blocks implies #[trigger] claim_of(claims, x).0
        == g.region && claim_of(claims, x).1 == owner_view(g.owner) by {
        if x < b {
            assert(last.block <= x < last.block + last.blocks);
        }
    }
    assert(span_ok(g, claims, size));
    assert forall|k: int| 0 <= k < next.len() implies span_ok(#[trigger] next[k], claims, size) by {
        if k < count - 1 {
            assert(next[k] == spans[k]);
        }
    }
    assert forall|k: int, j: int|
        #![trigger next[k], next[j]]
        0 <= k && j == k + 1 && j < next.len() implies next[k].block + next[k].blocks
            == next[j].block && !(next[k].region == next[j].region && owner_view(next[k].owner)
            == owner_view(next[j].owner)) by {
        assert(next[k] == spans[k]);
        assert(next[j].block == spans[j].block);
        assert(next[j].region == spans[j].region);
        assert(next[j].owner == spans[j].owner);
        assert(spans[k].block + spans[k].blocks == spans[j].block);
    }
}

proof fn lemma_tiles_push(
    spans: Seq<Span>,
    claims: Seq<Option<Owned>>,
    b: int,
    size: int,
    span: Span,
)
    requires
        0 <= b < claims.len(),
        size >= 0,
        tiles(spans, claims, b, size),
        span.block == b,
        span.blocks == 1,
        span.start == b * size,
        span.end == (b + 1) * size,
        (span.region, owner_view(span.owner), span.owner_block) == claim_of(claims, b),
        spans.len() > 0 ==> !(spans.last().region == span.region && owner_view(spans.last().owner)
            == owner_view(span.owner)),
    ensures
        tiles(spans.push(span), claims, b + 1, size),
{
    reveal(tiles);
    reveal(byte_offset);
    let next = spans.push(span);
    assert forall|x: int| span.block <= x < span.block + span.blocks implies #[trigger] claim_of(claims, x).0
        == span.region && claim_of(claims, x).1 == owner_view(span.owner) by {
        assert(x == b);
    }
    assert(span_ok(span, claims, size));
    assert forall|k: int| 0 <= k < next.len() implies span_ok(#[trigger] next[k], claims, size) by {
        if k < spans.len() {
            assert(next[k] == spans[k]);
        }
    }
    assert forall|k: int, j: int|
        #![trigger next[k], next[j]]
        0 <= k && j == k + 1 && j < next.len() implies next[k].block + next[k].blocks
            == next[j].block && !(next[k].region == next[j].region && owner_view(next[k].owner)
            == owner_view(next[j].owner)) by {
        assert(next[k] == spans[k]);
        if j < spans.len() {
            assert(next[j] == spans[j]);
            assert(spans[k].block + spans[k].blocks == spans[j].block);
        } else {
            assert(spans[k] == spans.last());
        }
    }
}

/// Extend the map by block `b`: the last span grows when `b` continues it,
/// otherwise a new span starts.
fn add_block(
    spans: &mut Vec<Span>,
    claims: &Vec<Option<Owned>>,
    b: usize,
    size: u64,
    region: Region,
    owner: Option<String>,
    owner_block: Option<u32>,
)
    requires
        b < claims@.len(),
        b + 1 <= u64::MAX,
        (b + 1) * size <= u64::MAX,
        tiles(old(spans)@, claims@, b as int, size as int),
        claim_of(claims@, b as int) == (region, owner_view(owner), owner_block),
    ensures
        tiles(final(spans)@, claims@, b + 1, size as int),
{
    let count = spans.len();
    let ghost old_spans = spans@;
    if count > 0 && spans[count - 1].region == region && same_owner(&spans[count - 1].owner, &owner) {
        proof {
            lemma_tiles_grow(old_spans, claims@, b as int, size as int);
            reveal(tiles);
            assert(span_ok(old_spans.last(), claims@, size as int));
            let last = old_spans.last();
            reveal(byte_offset);
            assert(last.block + last.blocks == b);
            assert(last.end == b * size);
            assert(b * size + size == (b + 1) * size) by (nonlinear_arith);
        }
        let mut last = spans.pop().unwrap();
        last.end = last.end + size;
        last.blocks = last.blocks + 1;
        spans.push(last);
        assert(spans@ =~= old_spans.update(count - 1, grown(old_spans.last(), size as int)));
    } else {
        proof {
            assert(b * size + size == (b + 1) * size) by (nonlinear_arith);
            assert(b * size <= (b + 1) * size) by (nonlinear_arith);
        }
        let start = b as u64 * size;
        let span = Span {
            start,
            end: start + size,
            block: b as u64,
            blocks: 1,
            region,
            owner,
            owner_block,
        };
        proof {
            lemma_tiles_push(old_spans, claims@, b as int, size as int, span);
        }
        spans.push(span);
    }
}

impl Layout {
    /// Map an image from what claims each of its blocks: `claims[b]` is what
    /// owns block `b`, `None` where nothing does.
    ///
    /// Two files with adjacent blocks are two spans, because the owner is what
    /// a reader wants named.
    pub fn of(claims: &Vec<Option<Owned>>, block_size: u32, mounted: bool) -> (l: Layout)
        requires
            claims@.len() * block_size <= u64::MAX,
        ensures
            l.blocks == claims@.len(),
            l.block_size == block_size,
            l.mounted == mounted,
            tiles(l.spans@, claims@, claims@.len() as int, block_size as int),
    {
        let spans = coalesce(claims, block_size);
        Layout { spans, block_size, blocks: claims.len() as u64, mounted }
    }
}

/// Runs of consecutive blocks that share a region and an owner, tiling all
/// `claims@.len()` blocks in offset order.
pub fn coalesce(claims: &Vec<Option<Owned>>, block_size: u32) -> (spans: Vec<Span>)
    requires
        claims@.len() * block_size <= u64::MAX,
    ensures
        tiles(spans@, claims@, claims@.len() as int, block_size as int),
{
    let size = block_size as u64;
    let n = claims.len();
    let mut spans: Vec<Span> = Vec::new();
    proof {
        reveal(tiles);
    }
    let mut b: usize = 0;
    while b < n
        invariant
            b <= n,
            n == claims@.len(),
            size == block_size,
            n * size <= u64::MAX,
            tiles(spans@, claims@, b as int, size as int),
        decreases n - b,
    {
        let (region, owner, owner_block) = match &claims[b] {
            Some(o) => (o.region, clone_owner(&o.owner), o.owner_block),
            None => (Region::Unclaimed, None, None),
        };
        assert(claim_of(claims@, b as int) == (region, owner_view(owner), owner_block));
        proof {
            assert((b + 1) * size <= n * size) by (nonlinear_arith)
                requires
                    b < n,
            ;
        }
        add_block(&mut spans, claims, b, size, region, owner, owner_block);
        b = b + 1;
    }
    spans
}

} // verus!

verus! {

/// Blocks that spans among the first `m` of region `r` cover.
pub open spec fn region_blocks(spans: Seq<Span>, r: Region, m: int) -> nat
    decreases m,
{
    if m <= 0 {
        0
    } else {
        region_blocks(spans, r, m - 1) + if spans[m - 1].region == r {
            spans[m - 1].blocks as nat
        } else {
            0nat
        }
    }
}

/// Some span among the first `m` is of region `r`.
pub open spec fn region_present(spans: Seq<Span>, r: Region, m: int) -> bool {
    exists|k: int| 0 <= k < m && (#[trigger] spans[k]).region == r
}

/// `n`, or the largest `u64` if it is larger.
pub open spec fn saturate(n: nat) -> u64 {
    if n > u64::MAX {
        u64::MAX
    } else {
        n as u64
    }
}

/// The totals of the first `i` regions in report order, each region present.
pub open spec fn totals_upto(spans: Seq<Span>, i: int) -> Seq<(Region, u64)>
    decreases i,
{
    if i <= 0 {
        Seq::empty()
    } else {
        let r = all_regions()[i - 1];
        totals_upto(spans, i - 1) + if region_present(spans, r, spans.len() as int) {
            seq![(r, saturate(region_blocks(spans, r, spans.len() as int)))]
        } else {
            Seq::empty()
        }
    }
}

/// The model of one span as JSON.
pub open spec fn span_json(s: Span) -> JsonView {
    JsonView::Obj(
        seq![
            ("offset"@, JsonView::Num(s.start as nat)),
            ("block"@, JsonView::Num(s.block as nat)),
            ("blocks"@, JsonView::Num(s.blocks as nat)),
            ("region"@, JsonView::Str(region_name(s.region)@)),
            ("file"@, match s.owner {
                Some(o) => JsonView::Str(o@),
                None => JsonView::Null,
            }),
            ("file_block"@, match s.owner_block {
                Some(b) => JsonView::Num(b as nat),
                None => JsonView::Null,
            }),
        ],
    )
}

/// The model of a map as JSON.
pub open spec fn layout_json(l: Layout) -> JsonView {
    JsonView::Obj(
        seq![
            ("block_size"@, JsonView::Num(l.block_size as nat)),
            ("blocks"@, JsonView::Num(l.blocks as nat)),
            ("mounted"@, JsonView::Bool(l.mounted)),
            ("spans"@, JsonView::Arr(l.spans@.map_values(|s: Span| span_json(s)))),
        ],
    )
}

/// One span as JSON.
fn span_to_json(s: &Span) -> (v: Value)
    ensures
        v@ == span_json(*s),
{
    let file = match &s.owner {
        Some(o) => Value::str(o.as_str()),
        None => Value::Null,
    };
    let file_block = match s.owner_block {
        Some(b) => Value::Num(b as u64),
        None => Value::Null,
    };
    let fields = vec![
        ("offset", Value::Num(s.start)),
        ("block", Value::Num(s.block)),
        ("blocks", Value::Num(s.blocks)),
        ("region", Value::str(s.region.name())),
        ("file", file),
        ("file_block", file_block),
    ];
    proof {
        lemma_fields_view(fields@);
        assert(fields_view(fields@) =~= span_json(*s)->Obj_0);
    }
    Value::Obj(fields)
}

impl Layout {
    /// The map as JSON.
    pub fn to_json(&self) -> (v: Value)
        ensures
            v@ == layout_json(*self),
    {
        let mut items: Vec<Value> = Vec::new();
        let mut i: usize = 0;
        while i < self.spans.len()
            invariant
                i <= self.spans@.len(),
                items_view(items@) == self.spans@.take(i as int).map_values(|s: Span| span_json(s)),
            decreases self.spans@.len() - i,
        {
            let ghost before = items@;
            let item = span_to_json(&self.spans[i]);
            items.push(item);
            assert(items@.drop_last() =~= before);
            i = i + 1;
            assert(items_view(items@) =~= self.spans@.take(i as int).map_values(
                |s: Span| span_json(s),
            ));
        }
        assert(self.spans@.take(i as int) =~= self.spans@);
        let fields = vec![
            ("block_size", Value::Num(self.block_size as u64)),
            ("blocks", Value::Num(self.blocks)),
            ("mounted", Value::Bool(self.mounted)),
            ("spans", Value::Arr(items)),
        ];
        proof {
            lemma_fields_view(fields@);
            assert(fields_view(fields@) =~= layout_json(*self)->Obj_0);
        }
        Value::Obj(fields)
    }

    /// How many blocks each region accounts for, in region order; a region
    /// no span has is absent.
    pub fn totals(&self) -> (r: Vec<(Region, u64)>)
        ensures
            r@ == totals_upto(self.spans@, 6),
    {
        let regions: [Region; 6] = [
            Region::Bootblock,
            Region::Rootblock,
            Region::Bitmap,
            Region::Directory,
            Region::File,
            Region::Unclaimed,
        ];
        assert(regions@ =~= all_regions());
        let mut out: Vec<(Region, u64)> = Vec::new();
        let mut i: usize = 0;
        while i < 6
            invariant
                i <= 6,
                regions@ == all_regions(),
                out@ == totals_upto(self.spans@, i as int),
            decreases 6 - i,
        {
            let region = regions[i];
            let mut total: u64 = 0;
            let mut present = false;
            let mut k: usize = 0;
            while k < self.spans.len()
                invariant
                    k <= self.spans@.len(),
                    total == saturate(region_blocks(self.spans@, region, k as int)),
                    present == region_present(self.spans@, region, k as int),
                decreases self.spans@.len() - k,
            {
                if self.spans[k].region == region {
                    total = total.saturating_add(self.spans[k].blocks);
                    present = true;
                }
                proof {
                    if present && !(self.spans@[k as int].region == region) {
                        let j = choose|j: int| 0 <= j < k && (#[trigger] self.spans@[j]).region == region;
                        assert(0 <= j < k + 1 && self.spans@[j].region == region);
                    }
                    if !present {
                        assert forall|j: int| 0 <= j < k + 1 implies (#[trigger] self.spans@[j]).region != region by {
                            if j < k {
                                assert(!region_present(self.spans@, region, k as int));
                            }
                        }
                    }
                    if self.spans@[k as int].region == region {
                        assert(0 <= k < k + 1 && self.spans@[k as int].region == region);
                    }
                }
                k = k + 1;
            }
            if present {
                out.push((region, total));
            }
            i = i + 1;
            assert(out@ =~= totals_upto(self.spans@, i as int));
        }
        out
    }
}

} // verus!

verus! {

/// What a directory-tree entry is, as far as the map is concerned.
#[derive(Debug, Clone, Copy, PartialEq, Eq, Structural)]
pub enum WalkKind {
    /// A directory: its header block holds its name.
    Directory,
    /// A file: its header and its data blocks.
    File,
    /// Anything else — a link — which claims nothing here.
    Other,
}

/// One entry reached by walking the directory tree.
#[derive(Debug, Clone)]
pub struct WalkEntry {
    /// Its path from the volume root.
    pub path: String,
    /// What it is.
    pub kind: WalkKind,
    /// Its header block.
    pub block: u32,
    /// For a file, its data blocks, where they could be read.
    pub data_blocks: Option<Vec<u32>>,
}

/// What a mounted volume shows of its structure.
#[derive(Debug, Clone)]
pub struct VolumeFacts {
    /// The rootblock, computed from the geometry.
    pub root_block: u64,
    /// The blocks of the allocation bitmap, where it could be read.
    pub bitmap_blocks: Option<Vec<u32>>,
    /// Every entry of the directory tree, where it could be walked.
    pub walk: Option<Vec<WalkEntry>>,
}

/// A claim with no owner.
pub open spec fn bare(r: Region) -> Owned {
    Owned { region: r, owner: None, owner_block: None }
}

/// What the last of the writes `ws` to block `b` says, if any touches it.
pub open spec fn last_claim(ws: Seq<(u64, Owned)>, b: int) -> Option<Owned>
    decreases ws.len(),
{
    if ws.len() == 0 {
        None
    } else if ws.last().0 == b {
        Some(ws.last().1)
    } else {
        last_claim(ws.drop_last(), b)
    }
}

/// The reserved blocks, claimed as the bootblock.
pub open spec fn boot_writes(reserved: u32) -> Seq<(u64, Owned)> {
    Seq::new(reserved as nat, |i: int| (i as u64, bare(Region::Bootblock)))
}

/// The bitmap's blocks.
pub open spec fn bitmap_writes(blocks: Seq<u32>) -> Seq<(u64, Owned)> {
    blocks.map_values(|b: u32| (b as u64, bare(Region::Bitmap)))
}

/// What one entry claims: a directory its header; a file its header, then
/// each of its data blocks.
pub open spec fn entry_writes(e: WalkEntry) -> Seq<(u64, Owned)> {
    let mine = Owned {
        region: if e.kind == WalkKind::Directory { Region::Directory } else { Region::File },
        owner: Some(e.path),
        owner_block: Some(e.block),
    };
    match e.kind {
        WalkKind::Directory => seq![(e.block as u64, mine)],
        WalkKind::File => seq![(e.block as u64, mine)] + match e.data_blocks {
            Some(bs) => bs@.map_values(|b: u32| (b as u64, mine)),
            None => Seq::empty(),
        },
        WalkKind::Other => Seq::empty(),
    }
}

/// What the first `m` entries claim, in walk order.
pub open spec fn walk_writes(es: Seq<WalkEntry>, m: int) -> Seq<(u64, Owned)>
    decreases m,
{
    if m <= 0 {
        Seq::empty()
    } else {
        walk_writes(es, m - 1) + entry_writes(es[m - 1])
    }
}

/// Every claim on the disk, in the order later ones take precedence: the
/// bootblock unless the device has a Rigid Disk Block; then, with a volume,
/// the rootblock, the bitmap and the tree — so a file is never shadowed by
/// structure, and is the more informative answer if both claim a block.
pub open spec fn all_writes(reserved: u32, rdb_absent: bool, volume: Option<VolumeFacts>) -> Seq<
    (u64, Owned),
> {
    (if rdb_absent {
        boot_writes(reserved)
    } else {
        Seq::empty()
    }) + match volume {
        Some(v) => seq![(v.root_block, bare(Region::Rootblock))] + match v.bitmap_blocks {
            Some(bs) => bitmap_writes(bs@),
            None => Seq::empty(),
        } + match v.walk {
            Some(es) => walk_writes(es@, es@.len() as int),
            None => Seq::empty(),
        },
        None => Seq::empty(),
    }
}

/// The claim table agrees with the writes `ws` on every block.
pub open spec fn claims_match(claims: Seq<Option<Owned>>, ws: Seq<(u64, Owned)>) -> bool {
    forall|b: int| 0 <= b < claims.len() ==> #[trigger] claims[b] == last_claim(ws, b)
}

/// Record one claim; a block past the end of the image is ignored.
fn apply(claims: &mut Vec<Option<Owned>>, ws: Ghost<Seq<(u64, Owned)>>, block: u64, owned: Owned)
    requires
        claims_match(old(claims)@, ws@),
    ensures
        final(claims)@.len() == old(claims)@.len(),
        claims_match(final(claims)@, ws@.push((block, owned))),
{
    let ghost next = ws@.push((block, owned));
    if block < claims.len() as u64 {
        claims.set(block as usize, Some(owned));
    }
    assert forall|b: int| 0 <= b < claims@.len() implies #[trigger] claims@[b] == last_claim(next, b) by {
        assert(next.drop_last() =~= ws@);
        assert(next.last() == (block, owned));
    }
}

/// A copy of a path.
fn clone_path(s: &String) -> (r: String)
    ensures
        r == *s,
{
    s.clone()
}

/// Apply the claims one entry makes.
fn apply_entry(claims: &mut Vec<Option<Owned>>, ws: Ghost<Seq<(u64, Owned)>>, e: &WalkEntry)
    requires
        claims_match(old(claims)@, ws@),
    ensures
        final(claims)@.len() == old(claims)@.len(),
        claims_match(final(claims)@, ws@ + entry_writes(*e)),
{
    let region = match e.kind {
        WalkKind::Directory => Region::Directory,
        _ => Region::File,
    };
    let ghost mine = Owned { region, owner: Some(e.path), owner_block: Some(e.block) };
    match e.kind {
        WalkKind::Other => {
            assert(ws@ + entry_writes(*e) =~= ws@);
        },
        WalkKind::Directory => {
            let owned = Owned { region, owner: Some(clone_path(&e.path)), owner_block: Some(e.block) };
            apply(claims, ws, e.block as u64, owned);
            assert(ws@.push((e.block as u64, mine)) =~= ws@ + entry_writes(*e));
        },
        WalkKind::File => {
            let owned = Owned { region, owner: Some(clone_path(&e.path)), owner_block: Some(e.block) };
            apply(claims, ws, e.block as u64, owned);
            let ghost base = ws@.push((e.block as u64, mine));
            match &e.data_blocks {
                Some(bs) => {
                    let mut i: usize = 0;
                    while i < bs.len()
                        invariant
                            i <= bs@.len(),
                            claims@.len() == old(claims)@.len(),
                            mine == (Owned { region: Region::File, owner: Some(e.path), owner_block: Some(e.block) }),
                            claims_match(claims@, base + bs@.take(i as int).map_values(|b: u32| (b as u64, mine))),
                        decreases bs@.len() - i,
                    {
                        let owned = Owned {
                            region: Region::File,
                            owner: Some(clone_path(&e.path)),
                            owner_block: Some(e.block),
                        };
                        let ghost so_far = base + bs@.take(i as int).map_values(|b: u32| (b as u64, mine));
                        apply(claims, Ghost(so_far), bs[i] as u64, owned);
                        i = i + 1;
                        assert(so_far.push((bs@[i - 1] as u64, mine)) =~= base + bs@.take(i as int).map_values(
                            |b: u32| (b as u64, mine),
                        ));
                    }
                    assert(bs@.take(i as int) =~= bs@);
                    assert(base + bs@.map_values(|b: u32| (b as u64, mine)) =~= ws@ + entry_writes(*e));
                },
                None => {
                    assert(base =~= ws@ + entry_writes(*e));
                },
            }
        },
    }
}

} // verus!

verus! {

/// What each block of an image is, and what owns it, from what the image
/// shows of its structure; and whether a volume mounted.
///
/// The bootblock does not depend on the volume mounting — a protected disk is
/// exactly the one that does not mount and whose interesting bytes are in
/// block 0 — unless the device has a Rigid Disk Block, whose block 0 is not a
/// bootblock at all.
pub fn attribute(total_blocks: usize, reserved: u32, rdb_absent: bool, volume: &Option<VolumeFacts>) -> (r: (
    Vec<Option<Owned>>,
    bool,
))
    ensures
        r.0@.len() == total_blocks,
        claims_match(r.0@, all_writes(reserved, rdb_absent, *volume)),
        r.1 == volume is Some,
{
    let mut claims: Vec<Option<Owned>> = Vec::new();
    let mut i: usize = 0;
    while i < total_blocks
        invariant
            i <= total_blocks,
            claims@.len() == i,
            forall|b: int| 0 <= b < i ==> #[trigger] claims@[b] is None,
        decreases total_blocks - i,
    {
        claims.push(None);
        i = i + 1;
    }
    assert(claims_match(claims@, Seq::empty()));
    let ghost mut ws: Seq<(u64, Owned)> = Seq::empty();
    if rdb_absent {
        let mut b: u32 = 0;
        while b < reserved
            invariant
                b <= reserved,
                claims@.len() == total_blocks,
                claims_match(claims@, boot_writes(b)),
            decreases reserved - b,
        {
            apply(&mut claims, Ghost(boot_writes(b)), b as u64, Owned { region: Region::Bootblock, owner: None, owner_block: None });
            b = b + 1;
            assert(boot_writes((b - 1) as u32).push(((b - 1) as u64, bare(Region::Bootblock))) =~= boot_writes(b));
        }
        proof {
            ws = boot_writes(reserved);
        }
    }
    assert(ws =~= (if rdb_absent { boot_writes(reserved) } else { Seq::empty() }));
    let v = match volume {
        Some(v) => v,
        None => {
            assert(all_writes(reserved, rdb_absent, *volume) =~= ws);
            return (claims, false);
        },
    };
    apply(&mut claims, Ghost(ws), v.root_block, Owned { region: Region::Rootblock, owner: None, owner_block: None });
    proof {
        ws = ws.push((v.root_block, bare(Region::Rootblock)));
    }
    let ghost after_root = ws;
    if let Some(bs) = &v.bitmap_blocks {
        let mut i: usize = 0;
        while i < bs.len()
            invariant
                i <= bs@.len(),
                claims@.len() == total_blocks,
                claims_match(claims@, after_root + bitmap_writes(bs@.take(i as int))),
            decreases bs@.len() - i,
        {
            apply(&mut claims, Ghost(after_root + bitmap_writes(bs@.take(i as int))), bs[i] as u64, Owned { region: Region::Bitmap, owner: None, owner_block: None });
            i = i + 1;
            assert((after_root + bitmap_writes(bs@.take(i - 1))).push((bs@[i - 1] as u64, bare(Region::Bitmap))) =~= after_root + bitmap_writes(bs@.take(i as int)));
        }
        assert(bs@.take(i as int) =~= bs@);
        proof {
            ws = after_root + bitmap_writes(bs@);
        }
    }
    let ghost after_bitmap = ws;
    if let Some(es) = &v.walk {
        let mut i: usize = 0;
        while i < es.len()
            invariant
                i <= es@.len(),
                claims@.len() == total_blocks,
                claims_match(claims@, after_bitmap + walk_writes(es@, i as int)),
            decreases es@.len() - i,
        {
            apply_entry(&mut claims, Ghost(after_bitmap + walk_writes(es@, i as int)), &es[i]);
            i = i + 1;
            assert(after_bitmap + walk_writes(es@, i - 1) + entry_writes(es@[i - 1]) =~= after_bitmap + walk_writes(es@, i as int));
        }
        proof {
            ws = after_bitmap + walk_writes(es@, es@.len() as int);
        }
    }
    assert(all_writes(reserved, rdb_absent, *volume) =~= ws);
    (claims, true)
}

} // verus!
