//! Recovering files nothing points at any more.
//!
//! An OFS file proves itself: every data block carries a header naming the
//! file header that owns it, so a carved file can be checked from the disk
//! alone. An FFS data block is raw payload with no header, so a carved FFS
//! file yields its name, size and block list and no way to confirm a byte of
//! its contents; it is reported as header-only, never as recovered.
use vstd::prelude::*;

use crate::json::{JsonView, Value, fields_view, items_view, lemma_fields_view};
use crate::layout::Owned;
use crate::text::{decimal, push_decimal, push_str};
use crate::unpack::{host_name, host_name_of};

verus! {

/// How well a carved file is supported by the disk itself.
#[derive(Debug, Clone, Copy, PartialEq, Eq, Structural)]
pub enum Evidence {
    /// Every data block names this header back and checksums correctly.
    SelfEvident,
    /// Some data blocks agree and some do not: the file is partly
    /// overwritten.
    Partial {
        /// Blocks that agreed.
        good: usize,
        /// Blocks that did not.
        bad: usize,
    },
    /// The header is sound; nothing confirms the data. Not the same as
    /// recovered.
    HeaderOnly,
}

/// The name evidence is reported by.
pub open spec fn evidence_name(e: Evidence) -> &'static str {
    match e {
        Evidence::SelfEvident => "self-evident",
        Evidence::Partial { .. } => "partial",
        Evidence::HeaderOnly => "header only",
    }
}

impl Evidence {
    /// The name this is reported by; part of the JSON surface.
    pub fn name(self) -> (r: &'static str)
        ensures
            r == evidence_name(self),
    {
        match self {
            Evidence::SelfEvident => "self-evident",
            Evidence::Partial { .. } => "partial",
            Evidence::HeaderOnly => "header only",
        }
    }
}

/// Whether a carved header is a file or a directory.
#[derive(Debug, Clone, Copy, PartialEq, Eq, Structural)]
pub enum CarvedKind {
    /// A file header.
    File,
    /// A directory header.
    Directory,
}

/// The name a kind is reported by.
pub open spec fn kind_label(k: CarvedKind) -> &'static str {
    match k {
        CarvedKind::Directory => "directory",
        CarvedKind::File => "file",
    }
}

/// The name a kind is reported by; part of the JSON surface.
pub fn kind_name(kind: CarvedKind) -> (r: &'static str)
    ensures
        r == kind_label(kind),
{
    match kind {
        CarvedKind::Directory => "directory",
        CarvedKind::File => "file",
    }
}

/// What the data blocks say about a header.
///
/// A directory has no data blocks, and a file whose blocks all disagree has
/// nothing left that confirms it: the same answer, and the honest one in
/// both cases.
pub open spec fn graded(kind: CarvedKind, good: usize, bad: usize) -> Evidence {
    if kind == CarvedKind::Directory || good == 0 {
        Evidence::HeaderOnly
    } else if bad == 0 {
        Evidence::SelfEvident
    } else {
        Evidence::Partial { good, bad }
    }
}

/// How far the disk supports one header, from how many of its data blocks
/// named it back and how many did not.
pub fn grade(kind: CarvedKind, good: usize, bad: usize) -> (e: Evidence)
    ensures
        e == graded(kind, good, bad),
{
    if kind == CarvedKind::Directory || good == 0 {
        Evidence::HeaderOnly
    } else if bad == 0 {
        Evidence::SelfEvident
    } else {
        Evidence::Partial { good, bad }
    }
}

/// A header nothing in the directory tree points at.
#[derive(Debug, Clone)]
pub struct Carved {
    /// The block the header sits in.
    pub block: u32,
    /// Its name, as stored.
    pub name: String,
    /// The size the header claims.
    pub size: u32,
    /// Whether it is a file or a directory.
    pub kind: CarvedKind,
    /// How far the disk backs it up.
    pub evidence: Evidence,
    /// The data blocks that agreed, in order.
    pub blocks: Vec<u32>,
}

/// Whether there is anything confirmed to write out.
///
/// False for a header-only carve: a file carrying the right name and
/// unconfirmed bytes is worse than no file, because somebody will believe it.
pub fn is_recoverable(carved: &Carved) -> (r: bool)
    ensures
        r == (carved.evidence != Evidence::HeaderOnly && carved.blocks@.len() > 0),
{
    let header_only = match carved.evidence {
        Evidence::HeaderOnly => true,
        _ => false,
    };
    !header_only && carved.blocks.len() > 0
}

/// The filename a carved file is written under: the header's block, zero
/// padded to five digits, because two lost files routinely share a name;
/// then the name; then `.partial` when the recovery is incomplete, so a
/// truncated file never looks whole.
pub open spec fn recovered(c: Carved) -> Seq<char> {
    let digits = decimal(c.block as nat);
    Seq::new(if digits.len() < 5 { (5 - digits.len()) as nat } else { 0 }, |_i: int| '0') + digits + "-"@
        + host_name_of(c.name@) + if c.evidence is Partial {
        ".partial"@
    } else {
        ""@
    }
}

/// How many decimal digits `n` takes.
fn decimal_width(n: u32) -> (w: usize)
    ensures
        w == decimal(n as nat).len(),
        w <= n / 2 + 1,
    decreases n,
{
    if n < 10 {
        1
    } else {
        1 + decimal_width(n / 10)
    }
}

/// The filename a carved file is written under.
pub fn recovered_name(carved: &Carved) -> (r: String)
    ensures
        r@ == recovered(*carved),
{
    let mut out = String::new();
    let width = decimal_width(carved.block);
    let mut k: usize = width;
    while k < 5
        invariant
            width <= k,
            width == decimal(carved.block as nat).len(),
            k <= 5 || k == width,
            out@ == Seq::new((k - width) as nat, |_i: int| '0'),
        decreases 5 - k,
    {
        crate::text::push_char(&mut out, '0');
        k = k + 1;
        assert(out@ =~= Seq::new((k - width) as nat, |_i: int| '0'));
    }
    push_decimal(&mut out, carved.block as u64);
    push_str(&mut out, "-");
    let host = host_name(carved.name.as_str());
    push_str(&mut out, host.as_str());
    match carved.evidence {
        Evidence::Partial { .. } => push_str(&mut out, ".partial"),
        _ => push_str(&mut out, ""),
    }
    assert(out@ =~= recovered(*carved));
    out
}

/// The model of one carved header as JSON.
pub open spec fn carved_json(c: Carved) -> JsonView {
    JsonView::Obj(
        seq![
            ("block"@, JsonView::Num(c.block as nat)),
            ("name"@, JsonView::Str(c.name@)),
            ("size"@, JsonView::Num(c.size as nat)),
            ("kind"@, JsonView::Str(kind_label(c.kind)@)),
            ("evidence"@, JsonView::Str(evidence_name(c.evidence)@)),
            ("data_blocks"@, JsonView::Num(c.blocks@.len())),
        ],
    )
}

/// The model of a carve as JSON.
pub open spec fn carve_json(found: Seq<Carved>) -> JsonView {
    JsonView::Obj(
        seq![
            ("found"@, JsonView::Num(found.len())),
            ("carved"@, JsonView::Arr(found.map_values(|c: Carved| carved_json(c)))),
        ],
    )
}

/// One carved header as JSON: a count of its blocks, not the list.
fn one(c: &Carved) -> (v: Value)
    ensures
        v@ == carved_json(*c),
{
    let fields = vec![
        ("block", Value::Num(c.block as u64)),
        ("name", Value::str(c.name.as_str())),
        ("size", Value::Num(c.size as u64)),
        ("kind", Value::str(kind_name(c.kind))),
        ("evidence", Value::str(c.evidence.name())),
        ("data_blocks", Value::Num(c.blocks.len() as u64)),
    ];
    proof {
        lemma_fields_view(fields@);
        assert(fields_view(fields@) =~= carved_json(*c)->Obj_0);
    }
    Value::Obj(fields)
}

/// What a carve found, as a document.
pub fn to_json(found: &Vec<Carved>) -> (v: Value)
    ensures
        v@ == carve_json(found@),
{
    let mut items: Vec<Value> = Vec::new();
    let mut i: usize = 0;
    while i < found.len()
        invariant
            i <= found@.len(),
            items_view(items@) == found@.take(i as int).map_values(|c: Carved| carved_json(c)),
        decreases found@.len() - i,
    {
        let ghost before = items@;
        items.push(one(&found[i]));
        assert(items@.drop_last() =~= before);
        i = i + 1;
        assert(items_view(items@) =~= found@.take(i as int).map_values(|c: Carved| carved_json(c)));
    }
    assert(found@.take(i as int) =~= found@);
    let fields = vec![("found", Value::Num(found.len() as u64)), ("carved", Value::Arr(items))];
    proof {
        lemma_fields_view(fields@);
        assert(fields_view(fields@) =~= carve_json(found@)->Obj_0);
    }
    Value::Obj(fields)
}

/// The big-endian 32-bit word at `at`, where the block holds one.
pub open spec fn word_at(raw: Seq<u8>, at: int) -> Option<u32> {
    if 0 <= at && at + 4 <= raw.len() {
        Some(
            (raw[at] as nat * 0x1000000 + raw[at + 1] as nat * 0x10000 + raw[at + 2] as nat * 0x100
                + raw[at + 3] as nat) as u32,
        )
    } else {
        None
    }
}

/// The big-endian 32-bit word at `at`, where the block holds one.
pub fn read_word(raw: &[u8], at: usize) -> (r: Option<u32>)
    ensures
        r == word_at(raw@, at as int),
{
    if at > raw.len() || raw.len() - at < 4 {
        return None;
    }
    let a = raw[at] as u32;
    let b = raw[at + 1] as u32;
    let c = raw[at + 2] as u32;
    let d = raw[at + 3] as u32;
    Some(a * 0x1000000 + b * 0x10000 + c * 0x100 + d)
}

/// The confirmed payload of one OFS data block: after its 24-byte header,
/// as many bytes as the header says are used, and no more than the block
/// holds.
pub open spec fn payload(raw: Seq<u8>) -> Seq<u8> {
    match word_at(raw, 12) {
        None => Seq::empty(),
        Some(used) => {
            let to = if 24 + used > raw.len() { raw.len() as int } else { 24 + used };
            if to < 24 {
                Seq::empty()
            } else {
                raw.subrange(24, to)
            }
        },
    }
}

/// The payloads of several blocks, one after another.
pub open spec fn payloads(blocks: Seq<Vec<u8>>) -> Seq<u8>
    decreases blocks.len(),
{
    if blocks.len() == 0 {
        Seq::empty()
    } else {
        payloads(blocks.drop_last()) + payload(blocks.last()@)
    }
}

/// The bytes of a carved file, assembled from the blocks that confirmed it,
/// each as the disk holds it. Empty for a header-only carve, which has no
/// confirmed blocks: there is nothing confirmed to hand over.
pub fn contents(blocks: &Vec<Vec<u8>>) -> (r: Vec<u8>)
    ensures
        r@ == payloads(blocks@),
{
    let mut out: Vec<u8> = Vec::new();
    let mut i: usize = 0;
    while i < blocks.len()
        invariant
            i <= blocks@.len(),
            out@ == payloads(blocks@.take(i as int)),
        decreases blocks@.len() - i,
    {
        let raw = &blocks[i];
        let ghost start = out@;
        match read_word(raw.as_slice(), 12) {
            None => {},
            Some(used) => {
                let to: usize = if used as u64 + 24 > raw.len() as u64 {
                    raw.len()
                } else {
                    24 + used as usize
                };
                if to >= 24 {
                    let mut k: usize = 24;
                    while k < to
                        invariant
                            24 <= k <= to <= raw@.len(),
                            out@ == start + raw@.subrange(24, k as int),
                        decreases to - k,
                    {
                        out.push(raw[k]);
                        k = k + 1;
                        assert(out@ =~= start + raw@.subrange(24, k as int));
                    }
                }
            },
        }
        assert(blocks@.take(i + 1).drop_last() =~= blocks@.take(i as int));
        assert(out@ =~= start + payload(blocks@[i as int]@));
        i = i + 1;
    }
    assert(blocks@.take(i as int) =~= blocks@);
    out
}

} // verus!

verus! {

/// The most data blocks one walk collects: more than a double-density floppy
/// holds, so a chain that does not end stops here.
pub const CHAIN_CAP: usize = 4096;

/// Where block `b` starts in an image of `size`-byte blocks, if the whole
/// block is there.
pub open spec fn block_base(image: Seq<u8>, size: nat, b: u32) -> Option<int> {
    if b * size + size <= image.len() {
        Some(b * size)
    } else {
        None
    }
}

/// How many slots of a header's block table fit in a block: the table runs
/// downward from 204 bytes before the block's end, four bytes a slot.
pub open spec fn slots(size: nat) -> nat {
    if size >= 204 {
        ((size - 204) as nat / 4 + 1) as nat
    } else {
        0
    }
}

/// Where slot `i` of the table of the header at `base` is.
pub open spec fn slot_at(base: int, size: nat, i: int) -> int {
    base + size - 204 - 4 * i
}

/// The nonzero entries among the first `n` slots of the table of the header
/// at `base`, in slot order.
pub open spec fn table_upto(image: Seq<u8>, base: int, size: nat, n: nat) -> Seq<u32>
    decreases n,
{
    if n == 0 {
        Seq::empty()
    } else {
        table_upto(image, base, size, (n - 1) as nat) + match word_at(image, slot_at(base, size, n - 1)) {
            Some(x) => if x != 0 {
                seq![x]
            } else {
                Seq::empty()
            },
            None => Seq::empty(),
        }
    }
}

/// How many table slots a header's own count puts in use, within the cap and
/// within what fits in the block.
pub open spec fn slots_used(high: u32, size: nat) -> nat {
    let a: nat = if high < CHAIN_CAP { high as nat } else { CHAIN_CAP as nat };
    if a < slots(size) {
        a
    } else {
        slots(size)
    }
}

/// The data blocks header `h` lists, in table order; none where the header
/// is not wholly in the image.
pub open spec fn listed(image: Seq<u8>, size: nat, h: u32) -> Seq<u32> {
    match block_base(image, size, h) {
        None => Seq::empty(),
        Some(base) => if size < 12 {
            Seq::empty()
        } else {
            match word_at(image, base + 8) {
                Some(high) => table_upto(image, base, size, slots_used(high, size)),
                None => Seq::empty(),
            }
        },
    }
}

/// The extension header that continues `h`'s table, if it names one.
pub open spec fn extension(image: Seq<u8>, size: nat, h: u32) -> Option<u32> {
    match block_base(image, size, h) {
        None => None,
        Some(base) => if size < 12 {
            None
        } else {
            match word_at(image, base + size - 8) {
                Some(n) => if n != 0 {
                    Some(n)
                } else {
                    None
                },
                None => None,
            }
        },
    }
}

/// The data blocks a chain of headers lists, one header after another.
pub open spec fn chain_blocks(image: Seq<u8>, size: nat, hs: Seq<u32>) -> Seq<u32>
    decreases hs.len(),
{
    if hs.len() == 0 {
        Seq::empty()
    } else {
        chain_blocks(image, size, hs.drop_last()) + listed(image, size, hs.last())
    }
}

/// Whether `hs` is the chain of headers from `start`, each continued by the
/// next, none visited twice.
pub open spec fn follows(image: Seq<u8>, size: nat, start: u32, hs: Seq<u32>) -> bool {
    &&& hs.len() >= 1
    &&& hs[0] == start
    &&& hs.no_duplicates()
    &&& forall|j: int| 0 <= j < hs.len() - 1 ==> extension(image, size, #[trigger] hs[j]) == Some(hs[j + 1])
}

/// Whether following the chain stopped where it has to: it ends, it turns
/// back on itself, or it has listed as many blocks as a walk collects.
pub open spec fn stops(image: Seq<u8>, size: nat, hs: Seq<u32>) -> bool {
    ||| extension(image, size, hs.last()) is None
    ||| hs.contains(extension(image, size, hs.last())->0)
    ||| chain_blocks(image, size, hs).len() >= CHAIN_CAP
}

/// At most the first [`CHAIN_CAP`] of `s`.
pub open spec fn capped(s: Seq<u32>) -> Seq<u32> {
    if s.len() <= CHAIN_CAP {
        s
    } else {
        s.take(CHAIN_CAP as int)
    }
}

/// Whether `x` occurs in `v`.
fn holds(v: &Vec<u32>, x: u32) -> (r: bool)
    ensures
        r == v@.contains(x),
{
    let mut i: usize = 0;
    while i < v.len()
        invariant
            i <= v@.len(),
            forall|j: int| 0 <= j < i ==> v@[j] != x,
        decreases v@.len() - i,
    {
        if v[i] == x {
            assert(v@[i as int] == x);
            return true;
        }
        i = i + 1;
    }
    false
}

/// The data blocks a file header names, following its extension chain, in
/// an image of `block_size`-byte blocks.
///
/// Read from the image rather than a mounted volume, because the disks worth
/// carving include ones that do not mount. A header visited twice ends the
/// walk, and so does the cap: a crafted or corrupt header can point at
/// itself, and this is expected to be reading damaged structures.
pub fn data_blocks(image: &[u8], block_size: u32, start: u32) -> (out: Vec<u32>)
    ensures
        exists|hs: Seq<u32>|
            follows(image@, block_size as nat, start, hs) && stops(image@, block_size as nat, hs) && out@
                == capped(chain_blocks(image@, block_size as nat, hs)),
{
    let ghost size = block_size as nat;
    let mut out: Vec<u32> = Vec::new();
    let mut seen: Vec<u32> = Vec::new();
    let mut header: u32 = start;
    let ghost mut known: Set<int> = Set::empty();
    proof {
        vstd::set_lib::lemma_int_range(0, 0x1_0000_0000);
        assert(capped(chain_blocks(image@, size, seen@)) =~= Seq::<u32>::empty());
    }
    loop
        invariant
            size == block_size as nat,
            seen@.no_duplicates(),
            seen@.len() == 0 ==> header == start && out@.len() == 0,
            seen@.len() > 0 ==> follows(image@, size, start, seen@) && extension(image@, size, seen@.last())
                == Some(header),
            out@ == capped(chain_blocks(image@, size, seen@)),
            known.finite(),
            known.len() == seen@.len(),
            forall|x: int| #[trigger] known.contains(x) ==> 0 <= x < 0x1_0000_0000 && seen@.contains(x as u32),
            forall|j: int| 0 <= j < seen@.len() ==> known.contains(#[trigger] seen@[j] as int),
            vstd::set_lib::set_int_range(0, 0x1_0000_0000).finite(),
            vstd::set_lib::set_int_range(0, 0x1_0000_0000).len() == 0x1_0000_0000,
        decreases 0x1_0000_0000 - seen@.len(),
    {
        if holds(&seen, header) {
            assert(stops(image@, size, seen@));
            return out;
        }
        if out.len() >= CHAIN_CAP {
            assert(stops(image@, size, seen@));
            return out;
        }
        // The walk visits this header.
        let ghost before = seen@;
        let ghost prev = chain_blocks(image@, size, before);
        proof {
            assert(!known.contains(header as int));
            vstd::set_lib::lemma_len_subset(known.insert(header as int), vstd::set_lib::set_int_range(0, 0x1_0000_0000));
            known = known.insert(header as int);
        }
        seen.push(header);
        proof {
            assert(seen@.drop_last() =~= before);
            assert(seen@.last() == header);
            assert forall|j: int| 0 <= j < seen@.len() implies known.contains(#[trigger] seen@[j] as int) by {
                if j < before.len() {
                    assert(seen@[j] == before[j]);
                }
            }
            assert forall|x: int| #[trigger] known.contains(x) implies 0 <= x < 0x1_0000_0000 && seen@.contains(x as u32) by {
                if x == header as int {
                    assert(seen@[before.len() as int] == header);
                } else {
                    let k = choose|k: int| 0 <= k < before.len() && before[k] == x as u32;
                    assert(seen@[k] == before[k]);
                }
            }
            assert(seen@.no_duplicates()) by {
                assert forall|a: int, b: int| 0 <= a < b < seen@.len() implies seen@[a] != seen@[b] by {
                    if b == before.len() {
                        assert(before[a] == seen@[a]);
                        assert(!before.contains(header));
                    }
                }
            }
            if before.len() > 0 {
                assert forall|j: int| 0 <= j < seen@.len() - 1 implies extension(image@, size, #[trigger] seen@[j])
                    == Some(seen@[j + 1]) by {
                    if j < before.len() - 1 {
                        assert(seen@[j] == before[j] && seen@[j + 1] == before[j + 1]);
                    } else {
                        assert(seen@[j] == before.last());
                    }
                }
            }
            assert(follows(image@, size, start, seen@));
        }
        assert((header as u64) * (block_size as u64) <= 0xFFFF_FFFE_0000_0001) by (nonlinear_arith)
            requires
                header <= 0xFFFF_FFFFu32,
                block_size <= 0xFFFF_FFFFu32,
        ;
        let base64: u64 = (header as u64) * (block_size as u64);
        if base64 + (block_size as u64) > image.len() as u64 || block_size < 12 {
            // The header is not wholly in the image, or holds no count: it
            // lists nothing and continues nowhere.
            proof {
                assert(listed(image@, size, header) =~= Seq::<u32>::empty());
                assert(chain_blocks(image@, size, seen@) =~= prev);
                assert(stops(image@, size, seen@));
            }
            return out;
        }
        let base: usize = base64 as usize;
        let bs: usize = block_size as usize;
        assert(block_base(image@, size, header) == Some(base as int));
        let high = match read_word(image, base + 8) {
            Some(h) => h,
            None => {
                return out;
            },
        };
        let cap_high: usize = if (high as usize) < CHAIN_CAP { high as usize } else { CHAIN_CAP };
        let fit: usize = if bs >= 204 { (bs - 204) / 4 + 1 } else { 0 };
        let n: usize = if cap_high < fit { cap_high } else { fit };
        assert(n == slots_used(high, size));
        let mut idx: usize = 0;
        while idx < n
            invariant
                size == block_size as nat,
                bs == block_size,
                base + bs <= image.len(),
                n <= fit,
                fit == slots(size),
                idx <= n,
                out@ == capped(prev + table_upto(image@, base as int, size, idx as nat)),
            decreases n - idx,
        {
            assert(4 * idx <= bs - 204) by (nonlinear_arith)
                requires
                    idx < fit,
                    fit == (bs - 204) / 4 + 1,
                    bs >= 204,
            ;
            let at: usize = base + bs - 204 - 4 * idx;
            let w = read_word(image, at);
            let ghost t = table_upto(image@, base as int, size, idx as nat);
            proof {
                assert(slot_at(base as int, size, idx as int) == at);
            }
            match w {
                Some(x) => {
                    if x != 0 {
                        if out.len() < CHAIN_CAP {
                            out.push(x);
                            proof {
                                assert(out@ =~= capped(prev + (t + seq![x])));
                            }
                        } else {
                            assert(capped(prev + (t + seq![x])) =~= capped(prev + t));
                        }
                        assert(table_upto(image@, base as int, size, (idx + 1) as nat) == t + seq![x]);
                    } else {
                        assert(table_upto(image@, base as int, size, (idx + 1) as nat) =~= t);
                    }
                },
                None => {
                    assert(table_upto(image@, base as int, size, (idx + 1) as nat) =~= t);
                },
            }
            idx = idx + 1;
        }
        proof {
            assert(listed(image@, size, header) == table_upto(image@, base as int, size, n as nat));
            assert(chain_blocks(image@, size, seen@) == prev + listed(image@, size, header));
        }
        match read_word(image, base + bs - 8) {
            Some(next) => {
                if next != 0 {
                    header = next;
                } else {
                    assert(stops(image@, size, seen@));
                    return out;
                }
            },
            None => {
                assert(stops(image@, size, seen@));
                return out;
            },
        }
    }
}

} // verus!

verus! {

/// The sum of the first `n` big-endian longwords from `base`.
pub open spec fn longword_sum(image: Seq<u8>, base: int, n: nat) -> nat
    decreases n,
{
    if n == 0 {
        0
    } else {
        longword_sum(image, base, (n - 1) as nat) + match word_at(image, base + 4 * (n - 1)) {
            Some(w) => w as nat,
            None => 0,
        }
    }
}

/// Whether block `b` is an OFS data block that names `header` as its owner:
/// it says it is data (type 8), it names the header, and its whole longwords
/// sum to zero modulo 2^32, which is what its checksum is chosen to make them
/// do. An FFS data block is raw payload and says none of this, which is why
/// an FFS carve is never better than header-only.
pub open spec fn confirms(image: Seq<u8>, size: nat, b: u32, header: u32) -> bool {
    match block_base(image, size, b) {
        None => false,
        Some(base) => size >= 24 && word_at(image, base) == Some(8u32) && word_at(image, base + 4) == Some(header)
            && longword_sum(image, base, size / 4) % 0x1_0000_0000 == 0,
    }
}

/// Whether block `block` of an image of `block_size`-byte blocks is an OFS
/// data block that names `header` as its owner.
pub fn owns(image: &[u8], block_size: u32, block: u32, header: u32) -> (r: bool)
    ensures
        r == confirms(image@, block_size as nat, block, header),
{
    assert((block as u64) * (block_size as u64) <= 0xFFFF_FFFE_0000_0001) by (nonlinear_arith)
        requires
            block <= 0xFFFF_FFFFu32,
            block_size <= 0xFFFF_FFFFu32,
    ;
    let base64: u64 = (block as u64) * (block_size as u64);
    if base64 + (block_size as u64) > image.len() as u64 || block_size < 24 {
        return false;
    }
    let base: usize = base64 as usize;
    let bs: usize = block_size as usize;
    assert(block_base(image@, block_size as nat, block) == Some(base as int));
    let kind = read_word(image, base);
    let owner = read_word(image, base + 4);
    if kind != Some(8u32) || owner != Some(header) {
        return false;
    }
    let words: usize = bs / 4;
    assert(4 * words <= bs);
    let mut acc: u64 = 0;
    let mut i: usize = 0;
    while i < words
        invariant
            base + bs <= image.len(),
            4 * words <= bs,
            i <= words,
            acc < 0x1_0000_0000,
            acc == longword_sum(image@, base as int, i as nat) % 0x1_0000_0000,
        decreases words - i,
    {
        let ghost before = longword_sum(image@, base as int, i as nat);
        match read_word(image, base + 4 * i) {
            Some(w) => {
                proof {
                    vstd::arithmetic::div_mod::lemma_add_mod_noop(before as int, w as int, 0x1_0000_0000);
                    vstd::arithmetic::div_mod::lemma_small_mod(w as nat, 0x1_0000_0000);
                    vstd::arithmetic::div_mod::lemma_small_mod(acc as nat, 0x1_0000_0000);
                }
                acc = (acc + w as u64) % 0x1_0000_0000;
            },
            None => {},
        }
        i = i + 1;
    }
    acc == 0
}

/// The blocks among `bs` that confirm `header` as their owner.
pub open spec fn confirming(image: Seq<u8>, size: nat, header: u32) -> spec_fn(u32) -> bool {
    |b: u32| confirms(image, size, b, header)
}

/// Whether a carve of a header says what the image holds: a directory has no
/// data blocks and is header-only; a file's confirmed blocks are those of
/// the blocks its chain lists that name it back, and its grade follows from
/// how many did and did not.
pub open spec fn backed(image: Seq<u8>, size: nat, c: Carved) -> bool {
    &&& c.kind == CarvedKind::Directory ==> c.blocks@.len() == 0 && c.evidence == Evidence::HeaderOnly
    &&& c.kind == CarvedKind::File ==> exists|hs: Seq<u32>|
        {
            &&& follows(image, size, c.block, hs)
            &&& stops(image, size, hs)
            &&& c.blocks@ == capped(chain_blocks(image, size, hs)).filter(confirming(image, size, c.block))
            &&& c.evidence == graded(
                c.kind,
                c.blocks@.len() as usize,
                (capped(chain_blocks(image, size, hs)).len() - c.blocks@.len()) as usize,
            )
        }
}

/// How far the image backs up one orphaned header at `block`: for a file,
/// the data blocks its chain lists, those that confirm it, and the grade
/// that follows; a directory has no data blocks.
pub fn examine_header(
    image: &[u8],
    block_size: u32,
    block: u32,
    name: String,
    size: u32,
    kind: CarvedKind,
) -> (c: Carved)
    ensures
        c.block == block && c.name == name && c.size == size && c.kind == kind,
        backed(image@, block_size as nat, c),
{
    let mut good: Vec<u32> = Vec::new();
    let mut bad: usize = 0;
    match kind {
        CarvedKind::Directory => {},
        CarvedKind::File => {
            let walked = data_blocks(image, block_size, block);
            let ghost pred = confirming(image@, block_size as nat, block);
            let mut i: usize = 0;
            while i < walked.len()
                invariant
                    i <= walked@.len(),
                    pred == confirming(image@, block_size as nat, block),
                    good@ == walked@.take(i as int).filter(pred),
                    good@.len() + bad == i,
                decreases walked@.len() - i,
            {
                let b = walked[i];
                proof {
                    walked@.take(i as int).lemma_filter_push(b, pred);
                    assert(walked@.take(i + 1) =~= walked@.take(i as int).push(b));
                }
                if owns(image, block_size, b, block) {
                    good.push(b);
                } else {
                    bad = bad + 1;
                }
                i = i + 1;
            }
            assert(walked@.take(i as int) =~= walked@);
        },
    }
    let evidence = grade(kind, good.len(), bad);
    Carved { block, name, size, kind, evidence, blocks: good }
}

} // verus!

verus! {

/// A block that parses as a directory entry's header, as the parse shows it.
#[derive(Debug, Clone)]
pub struct Header {
    /// The block it sits in.
    pub block: u32,
    /// Its name, as stored.
    pub name: String,
    /// The size it claims.
    pub size: u32,
    /// What kind of entry it is.
    pub kind: crate::bridge::EntryKind,
}

/// Whether a header is worth carving: a file or a directory, in a block
/// nothing in the directory tree claims. A block the tree does reach is a
/// live entry and is not carving.
pub open spec fn orphaned(claims: Seq<Option<Owned>>) -> spec_fn(Header) -> bool {
    |h: Header|
        (h.kind == crate::bridge::EntryKind::File || h.kind == crate::bridge::EntryKind::Directory)
            && crate::find::claim_at(claims, h.block as u64).0 == crate::layout::Region::Unclaimed
}

/// Whether `c` is the carve of header `h`.
pub open spec fn carve_of(image: Seq<u8>, size: nat, h: Header, c: Carved) -> bool {
    &&& c.block == h.block && c.name == h.name && c.size == h.size
    &&& c.kind == if h.kind == crate::bridge::EntryKind::Directory {
        CarvedKind::Directory
    } else {
        CarvedKind::File
    }
    &&& backed(image, size, c)
}

/// Every orphaned header, in the order given, with how far the image backs
/// it up: `claims[b]` is what the directory tree claims of block `b`, and
/// `headers` are the blocks that parse as entry headers, in block order.
pub fn carve(image: &[u8], block_size: u32, claims: &Vec<Option<Owned>>, headers: &Vec<Header>) -> (r: Vec<Carved>)
    ensures
        r@.len() == headers@.filter(orphaned(claims@)).len(),
        forall|k: int|
            0 <= k < r@.len() ==> carve_of(image@, block_size as nat, headers@.filter(orphaned(claims@))[k], #[trigger] r@[k]),
{
    let ghost pred = orphaned(claims@);
    let mut out: Vec<Carved> = Vec::new();
    let mut i: usize = 0;
    while i < headers.len()
        invariant
            i <= headers@.len(),
            pred == orphaned(claims@),
            out@.len() == headers@.take(i as int).filter(pred).len(),
            forall|k: int|
                0 <= k < out@.len() ==> carve_of(image@, block_size as nat, headers@.take(i as int).filter(pred)[k], #[trigger] out@[k]),
        decreases headers@.len() - i,
    {
        let h = &headers[i];
        let ghost before = headers@.take(i as int).filter(pred);
        let ghost outs = out@;
        proof {
            headers@.take(i as int).lemma_filter_push(*h, pred);
            assert(headers@.take(i + 1) =~= headers@.take(i as int).push(*h));
        }
        let kind = match h.kind {
            crate::bridge::EntryKind::File => Some(CarvedKind::File),
            crate::bridge::EntryKind::Directory => Some(CarvedKind::Directory),
            _ => None,
        };
        let unclaimed = if (h.block as usize) < claims.len() {
            match &claims[h.block as usize] {
                Some(o) => o.region == crate::layout::Region::Unclaimed,
                None => true,
            }
        } else {
            true
        };
        match kind {
            Some(k) => {
                if unclaimed {
                    let c = examine_header(image, block_size, h.block, h.name.clone(), h.size, k);
                    out.push(c);
                    proof {
                        assert(pred(*h));
                        assert forall|m: int| 0 <= m < out@.len() implies carve_of(
                            image@,
                            block_size as nat,
                            headers@.take(i + 1).filter(pred)[m],
                            #[trigger] out@[m],
                        ) by {
                            if m < outs.len() {
                                assert(out@[m] == outs[m]);
                                assert(headers@.take(i + 1).filter(pred)[m] == before[m]);
                            }
                        }
                    }
                } else {
                    assert(!pred(*h));
                }
            },
            None => {
                assert(!pred(*h));
            },
        }
        i = i + 1;
    }
    assert(headers@.take(i as int) =~= headers@);
    out
}

} // verus!

verus! {

/// What a carve hands over is confirmed: every block it keeps is an OFS data
/// block that names the carved header as its owner with a sound checksum,
/// there are never more than a walk collects, and a self-evident file is one
/// whose every listed block confirmed it.
pub proof fn lemma_carve_keeps_only_confirmed(image: Seq<u8>, size: nat, c: Carved)
    requires
        backed(image, size, c),
    ensures
        forall|i: int| 0 <= i < c.blocks@.len() ==> confirms(image, size, #[trigger] c.blocks@[i], c.block),
        c.blocks@.len() <= CHAIN_CAP,
        c.evidence == Evidence::SelfEvident ==> exists|hs: Seq<u32>|
            follows(image, size, c.block, hs) && c.blocks@ == capped(chain_blocks(image, size, hs)),
{
    if c.kind == CarvedKind::File {
        let hs = choose|hs: Seq<u32>|
            {
                &&& follows(image, size, c.block, hs)
                &&& stops(image, size, hs)
                &&& c.blocks@ == capped(chain_blocks(image, size, hs)).filter(confirming(image, size, c.block))
                &&& c.evidence == graded(
                    c.kind,
                    c.blocks@.len() as usize,
                    (capped(chain_blocks(image, size, hs)).len() - c.blocks@.len()) as usize,
                )
            };
        let walked = capped(chain_blocks(image, size, hs));
        let pred = confirming(image, size, c.block);
        walked.filter_lemma(pred);
        assert forall|i: int| 0 <= i < c.blocks@.len() implies confirms(image, size, #[trigger] c.blocks@[i], c.block) by {
            assert(pred(walked.filter(pred)[i]));
        }
        if c.evidence == Evidence::SelfEvident {
            lemma_full_filter(walked, pred);
        }
    }
}

/// A filter that drops nothing is the sequence itself.
proof fn lemma_full_filter(s: Seq<u32>, pred: spec_fn(u32) -> bool)
    requires
        s.filter(pred).len() == s.len(),
    ensures
        s.filter(pred) == s,
    decreases s.len(),
{
    reveal(Seq::filter);
    if s.len() > 0 {
        s.drop_last().filter_lemma(pred);
        if !pred(s.last()) {
            assert(s.filter(pred) == s.drop_last().filter(pred));
            assert(false);
        }
        assert(s.filter(pred) == s.drop_last().filter(pred).push(s.last()));
        lemma_full_filter(s.drop_last(), pred);
        assert(s.drop_last().push(s.last()) =~= s);
    }
}

} // verus!
