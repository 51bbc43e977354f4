//! What a disk needs to run, and what it cannot tell you.
//!
//! An ADF is a dump of magnetic media. It carries no manifest, so most of
//! what somebody means by "the hardware this needs" is not in the bytes. So
//! this reports facts with their evidence and refuses to draw the verdict a
//! reader might want. Every claim is a lower bound, because that is the shape
//! of the evidence.
use vstd::prelude::*;

use crate::inspect::{Geometry, blocks_of};
use crate::json::{hex, push_hex_padded, zero_pad};
use crate::text::{decimal, push_char, push_decimal, push_str};

verus! {

/// One thing that can be said about the disk, and why.
#[derive(Debug, Clone)]
pub struct Fact {
    /// The claim, phrased as what it is or what it needs.
    pub what: String,
    /// The evidence for it, named so a reader can check.
    pub because: String,
}

/// What a disk says about itself.
#[derive(Debug, Clone)]
pub struct Specs {
    /// Derivable facts, each with its evidence.
    pub facts: Vec<Fact>,
    /// The libraries found, in the order they were looked for.
    pub libraries: Vec<String>,
}

/// A fact as plain values: what, and because.
pub open spec fn fact_view(f: Fact) -> (Seq<char>, Seq<char>) {
    (f.what@, f.because@)
}

/// The facts as plain values.
pub open spec fn facts_view(fs: Seq<Fact>) -> Seq<(Seq<char>, Seq<char>)> {
    fs.map_values(|f: Fact| fact_view(f))
}

/// Libraries that did not exist before Kickstart 2.0: a disk that opens one
/// of them cannot be running on 1.3. Only sourced entries are here.
pub open spec fn release_2_libraries() -> Seq<Seq<char>> {
    seq![
        "asl.library"@,
        "gadtools.library"@,
        "iffparse.library"@,
        "utility.library"@,
        "commodities.library"@,
        "rexxsyslib.library"@,
    ]
}

/// Libraries that did not exist before Kickstart 2.0, in the order they are
/// looked for.
pub fn release_2() -> (r: Vec<&'static str>)
    ensures
        r@.map_values(|s: &'static str| s@) == release_2_libraries(),
{
    let r = vec![
        "asl.library",
        "gadtools.library",
        "iffparse.library",
        "utility.library",
        "commodities.library",
        "rexxsyslib.library",
    ];
    assert(r@.map_values(|s: &'static str| s@) =~= release_2_libraries());
    r
}

/// Things an ADF cannot tell anyone, and why not.
///
/// Listed rather than omitted: a report that simply stops is read as "there
/// is nothing more to know".
pub fn unknowable() -> (r: Vec<(&'static str, &'static str)>)
    ensures
        r@ == seq![
            (
                "Memory",
                "no Amiga disk format records a memory requirement; it is a property of the program, discoverable only by running it",
            ),
            (
                "Processor",
                "68000 against 68020 or later is decided by the instructions used, which needs a disassembler ADE does not have",
            ),
            (
                "Chipset",
                "OCS, ECS and AGA are told apart by which chip registers a program writes, which again needs disassembly \u{2014} the `(AGA)` in a TOSEC name is the catalogue's claim, not the disk's",
            ),
            (
                "Video standard",
                "PAL against NTSC is set at run time by the program, and nothing on the disk declares it",
            ),
        ],
{
    vec![
        (
            "Memory",
            "no Amiga disk format records a memory requirement; it is a property of the program, discoverable only by running it",
        ),
        (
            "Processor",
            "68000 against 68020 or later is decided by the instructions used, which needs a disassembler ADE does not have",
        ),
        (
            "Chipset",
            "OCS, ECS and AGA are told apart by which chip registers a program writes, which again needs disassembly \u{2014} the `(AGA)` in a TOSEC name is the catalogue's claim, not the disk's",
        ),
        (
            "Video standard",
            "PAL against NTSC is set at run time by the program, and nothing on the disk declares it",
        ),
    ]
}

/// The drive a disk of `total_bytes` came out of, and why.
pub open spec fn media_fact(total_bytes: nat, total_blocks: nat, block_size: nat) -> (Seq<char>, Seq<char>) {
    if total_bytes == 901120 {
        (
            "A 3.5-inch double-density disk, which every Amiga can read"@,
            "880 KB: 80 cylinders x 2 heads x 11 sectors"@,
        )
    } else if total_bytes == 1802240 {
        (
            "A 3.5-inch high-density disk, which needs an HD drive \u{2014} an A3000 or later, or an external one"@,
            "1.76 MB: 22 sectors a track rather than 11"@,
        )
    } else if total_bytes == 450560 {
        (
            "A 5.25-inch double-density disk, which needs an A1020 or compatible drive"@,
            "440 KB: 40 cylinders, which is the A1020's format"@,
        )
    } else {
        (
            decimal(total_bytes) + " bytes, which is no standard floppy"@,
            decimal(total_blocks) + " blocks of "@ + decimal(block_size),
        )
    }
}

/// Whether a byte is printable ASCII other than the space.
pub open spec fn graphic(b: u8) -> bool {
    0x21 <= b <= 0x7E
}

/// How a bootblock's first bytes are shown: printable ones as themselves,
/// others as `\xNN`.
pub open spec fn shown(head: Seq<u8>) -> Seq<char>
    decreases head.len(),
{
    if head.len() == 0 {
        Seq::empty()
    } else {
        shown(head.drop_last()) + if graphic(head.last()) {
            seq![head.last() as char]
        } else {
            "\\x"@ + zero_pad(hex(head.last() as nat), 2)
        }
    }
}

/// How a disk starts, from the first four bytes of its bootblock.
pub open spec fn boot_fact(head: Seq<u8>) -> (Seq<char>, Seq<char>) {
    if head[0] == 0x44 && head[1] == 0x4F && head[2] == 0x53 {
        (
            "Starts through AmigaDOS, so it needs a Kickstart that mounts the filesystem below"@,
            "an AmigaDOS bootblock"@,
        )
    } else if head[0] == 0 && head[1] == 0 && head[2] == 0 && head[3] == 0 {
        (
            "Not bootable: it has to be inserted after something else has started"@,
            "an empty bootblock"@,
        )
    } else {
        (
            "Does not start through AmigaDOS: it either boots itself and needs no Workbench, or its bootblock is damaged"@,
            "a custom bootblock beginning "@ + shown(head),
        )
    }
}

/// Whether the byte before a name would make it part of a longer name.
pub open spec fn name_byte(b: u8) -> bool {
    (0x30 <= b <= 0x39) || (0x41 <= b <= 0x5A) || (0x61 <= b <= 0x7A) || b == 0x5F || b == 0x2E
}

/// Whether `needle` appears in `haystack` at `at` as a whole name.
pub open spec fn name_at(haystack: Seq<u8>, needle: Seq<u8>, at: int) -> bool {
    &&& 0 <= at
    &&& at + needle.len() <= haystack.len()
    &&& haystack.subrange(at, at + needle.len()) == needle
    &&& (at == 0 || !name_byte(haystack[at - 1]))
}

/// Whether `needle` appears anywhere in `haystack` as a whole name.
pub open spec fn holds_name(haystack: Seq<u8>, needle: Seq<u8>) -> bool {
    exists|at: int| name_at(haystack, needle, at)
}

/// Whether `needle` sits in `haystack` at `at`.
fn matches_at(haystack: &[u8], needle: &[u8], at: usize) -> (r: bool)
    requires
        at + needle.len() <= haystack.len(),
    ensures
        r == (haystack@.subrange(at as int, at + needle@.len()) == needle@),
{
    let mut i: usize = 0;
    while i < needle.len()
        invariant
            at + needle.len() <= haystack.len(),
            i <= needle@.len(),
            forall|j: int| 0 <= j < i ==> haystack@[at + j] == needle@[j],
        decreases needle@.len() - i,
    {
        if haystack[at + i] != needle[i] {
            assert(haystack@.subrange(at as int, at + needle@.len())[i as int] != needle@[i as int]);
            return false;
        }
        i = i + 1;
    }
    assert(haystack@.subrange(at as int, at + needle@.len()) =~= needle@);
    true
}

/// Whether `needle` appears in `haystack` as a whole name.
///
/// The byte before must not be part of a name, or the search finds one
/// inside another string: `udos.library` is not `dos.library`.
pub fn contains_name(haystack: &[u8], needle: &[u8]) -> (r: bool)
    ensures
        r == holds_name(haystack@, needle@),
{
    if needle.len() > haystack.len() {
        assert forall|k: int| !name_at(haystack@, needle@, k) by {}
        return false;
    }
    if needle.len() == 0 {
        assert(haystack@.subrange(0, 0) =~= needle@);
        assert(name_at(haystack@, needle@, 0));
        return true;
    }
    let last = haystack.len() - needle.len();
    let mut at: usize = 0;
    while at <= last
        invariant
            last == haystack@.len() - needle@.len(),
            last < haystack.len(),
            at <= last + 1,
            forall|k: int| 0 <= k < at ==> !name_at(haystack@, needle@, k),
        decreases last + 1 - at,
    {
        if matches_at(haystack, needle, at) {
            let b = if at == 0 { 0u8 } else { haystack[at - 1] };
            let joined = at > 0 && (b >= 0x30 && b <= 0x39 || b >= 0x41 && b <= 0x5A || b >= 0x61 && b <= 0x7A
                || b == 0x5F || b == 0x2E);
            if !joined {
                assert(name_at(haystack@, needle@, at as int));
                return true;
            }
        }
        at = at + 1;
    }
    proof {
        assert forall|k: int| !name_at(haystack@, needle@, k) by {
            if 0 <= k && k + needle@.len() <= haystack@.len() {
                assert(k < at);
            }
        }
    }
    false
}


/// The bytes of an ASCII name.
pub open spec fn ascii(s: Seq<char>) -> Seq<u8> {
    s.map_values(|c: char| c as u8)
}

/// The bytes of a name that is ASCII.
fn ascii_bytes(s: &str) -> (r: Vec<u8>)
    ensures
        r@ == ascii(s@),
{
    broadcast use vstd::string::group_string_axioms;
    let mut out: Vec<u8> = Vec::new();
    let ghost mut seen: int = 0;
    for c in it: s.chars()
        invariant
            it.seq() == s@,
            seen == it.index(),
            seen <= s@.len(),
            out@ == ascii(s@.take(seen)),
    {
        out.push(c as u8);
        proof {
            seen = seen + 1;
        }
        assert(out@ =~= ascii(s@.take(seen)));
    }
    assert(s@.take(seen) =~= s@);
    out
}

/// Whether the disk names a library, as a whole name.
pub open spec fn names(bytes: Seq<u8>) -> spec_fn(Seq<char>) -> bool {
    |name: Seq<char>| holds_name(bytes, ascii(name))
}

/// The Release 2 libraries a disk names, in the order they are looked for.
pub open spec fn libraries_found(bytes: Seq<u8>) -> Seq<Seq<char>> {
    release_2_libraries().filter(names(bytes))
}

/// Names joined with ", ".
pub open spec fn joined(names: Seq<Seq<char>>) -> Seq<char>
    decreases names.len(),
{
    if names.len() == 0 {
        Seq::empty()
    } else if names.len() == 1 {
        names[0]
    } else {
        joined(names.drop_last()) + ", "@ + names.last()
    }
}

/// Everything a disk admits to, given its geometry, whether it has a Rigid
/// Disk Block, the dostype its volume mounted with (its label and raw
/// value), and its bytes.
pub open spec fn specs_facts(
    g: Geometry,
    has_rdb: bool,
    dostype: Option<(String, u32)>,
    bytes: Seq<u8>,
) -> Seq<(Seq<char>, Seq<char>)> {
    let blocks = blocks_of(g);
    seq![media_fact(blocks * (g.block_size as nat), blocks, g.block_size as nat)] + storage_part(has_rdb)
        + boot_part(bytes) + volume_part(dostype) + libraries_part(bytes)
}

/// How a bootblock's first bytes are shown.
fn show(head: &[u8]) -> (r: String)
    ensures
        r@ == shown(head@),
{
    let mut out = String::new();
    let mut i: usize = 0;
    while i < head.len()
        invariant
            i <= head@.len(),
            out@ == shown(head@.take(i as int)),
        decreases head@.len() - i,
    {
        let b = head[i];
        let ghost before = out@;
        if b >= 0x21 && b <= 0x7E {
            push_char(&mut out, b as char);
        } else {
            push_str(&mut out, "\\x");
            push_hex_padded(&mut out, b as u32, 2);
        }
        assert(head@.take(i + 1).drop_last() =~= head@.take(i as int));
        i = i + 1;
        assert(out@ =~= shown(head@.take(i as int)));
    }
    assert(head@.take(i as int) =~= head@);
    out
}

/// Append one fact.
fn push_fact(facts: &mut Vec<Fact>, what: String, because: String)
    ensures
        facts_view(final(facts)@) == facts_view(old(facts)@).push((what@, because@)),
{
    let ghost before = facts@;
    facts.push(Fact { what, because });
    assert(facts_view(facts@) =~= facts_view(before).push((what@, because@)));
}

/// What the bootblock says about how a disk starts, where it is long enough
/// to have one.
pub open spec fn boot_part(bytes: Seq<u8>) -> Seq<(Seq<char>, Seq<char>)> {
    if bytes.len() >= 4 {
        seq![boot_fact(bytes.take(4))]
    } else {
        Seq::empty()
    }
}

/// What the dostype the volume mounted with says, where one mounted.
pub open spec fn volume_part(dostype: Option<(String, u32)>) -> Seq<(Seq<char>, Seq<char>)> {
    match dostype {
        Some((label, raw)) => seq![
            ("Formatted as "@ + label@, "dostype 0x"@ + zero_pad(hex(raw as nat), 8) + " in the bootblock"@),
        ],
        None => Seq::empty(),
    }
}

/// The Kickstart floor the libraries a disk opens set, if any.
pub open spec fn libraries_part(bytes: Seq<u8>) -> Seq<(Seq<char>, Seq<char>)> {
    if libraries_found(bytes).len() > 0 {
        seq![
            (
                "Needs at least Kickstart 2.0"@,
                "it opens "@ + joined(libraries_found(bytes)) + ", which Release 2 introduced"@,
            ),
        ]
    } else {
        Seq::empty()
    }
}

/// Whether a hard disk's Rigid Disk Block says what it needs.
pub open spec fn storage_part(has_rdb: bool) -> Seq<(Seq<char>, Seq<char>)> {
    if has_rdb {
        seq![
            (
                "A hard disk, so it needs a controller and cannot be put in a floppy drive"@,
                "a Rigid Disk Block in the reserved area"@,
            ),
        ]
    } else {
        Seq::empty()
    }
}

impl Specs {
    /// Read what a disk will admit to: its geometry, whether a Rigid Disk
    /// Block sits in its reserved area, the dostype its volume mounted with
    /// (label and raw value) where one mounted, and its bytes.
    pub fn of(geometry: &Geometry, has_rdb: bool, dostype: &Option<(String, u32)>, bytes: &[u8]) -> (s: Specs)
        requires
            blocks_of(*geometry) <= u64::MAX,
            blocks_of(*geometry) * geometry.block_size <= u64::MAX,
        ensures
            facts_view(s.facts@) == specs_facts(*geometry, has_rdb, *dostype, bytes@),
            s.libraries@.map_values(|l: String| l@) == libraries_found(bytes@),
    {
        let mut specs = Specs { facts: Vec::new(), libraries: Vec::new() };
        specs.media(geometry);
        specs.storage(has_rdb);
        specs.boot(bytes);
        specs.volume(dostype);
        specs.libraries(bytes);
        assert(facts_view(specs.facts@) =~= specs_facts(*geometry, has_rdb, *dostype, bytes@));
        specs
    }

    /// The drive it came out of.
    fn media(&mut self, geometry: &Geometry)
        requires
            blocks_of(*geometry) <= u64::MAX,
            blocks_of(*geometry) * geometry.block_size <= u64::MAX,
        ensures
            facts_view(final(self).facts@) == facts_view(old(self).facts@).push(
                media_fact(
                    blocks_of(*geometry) * (geometry.block_size as nat),
                    blocks_of(*geometry),
                    geometry.block_size as nat,
                ),
            ),
            final(self).libraries == old(self).libraries,
    {
        let blocks = geometry.total_blocks();
        let total = blocks * geometry.block_size as u64;
        if total == 901120 {
            push_fact(
                &mut self.facts,
                "A 3.5-inch double-density disk, which every Amiga can read".to_owned(),
                "880 KB: 80 cylinders x 2 heads x 11 sectors".to_owned(),
            );
        } else if total == 1802240 {
            push_fact(
                &mut self.facts,
                "A 3.5-inch high-density disk, which needs an HD drive \u{2014} an A3000 or later, or an external one".to_owned(),
                "1.76 MB: 22 sectors a track rather than 11".to_owned(),
            );
        } else if total == 450560 {
            push_fact(
                &mut self.facts,
                "A 5.25-inch double-density disk, which needs an A1020 or compatible drive".to_owned(),
                "440 KB: 40 cylinders, which is the A1020's format".to_owned(),
            );
        } else {
            let mut what = String::new();
            push_decimal(&mut what, total);
            push_str(&mut what, " bytes, which is no standard floppy");
            let mut because = String::new();
            push_decimal(&mut because, blocks);
            push_str(&mut because, " blocks of ");
            push_decimal(&mut because, geometry.block_size as u64);
            push_fact(&mut self.facts, what, because);
        }
    }

    /// Whether it is a hard disk rather than a floppy.
    fn storage(&mut self, has_rdb: bool)
        ensures
            facts_view(final(self).facts@) == facts_view(old(self).facts@) + storage_part(has_rdb),
            final(self).libraries == old(self).libraries,
    {
        if has_rdb {
            push_fact(
                &mut self.facts,
                "A hard disk, so it needs a controller and cannot be put in a floppy drive".to_owned(),
                "a Rigid Disk Block in the reserved area".to_owned(),
            );
        }
        assert(facts_view(self.facts@) =~= facts_view(old(self).facts@) + storage_part(has_rdb));
    }

    /// How it starts, which decides whether an OS disk is needed at all.
    fn boot(&mut self, bytes: &[u8])
        ensures
            facts_view(final(self).facts@) == facts_view(old(self).facts@) + boot_part(bytes@),
            final(self).libraries == old(self).libraries,
    {
        if bytes.len() >= 4 {
            if bytes[0] == 0x44 && bytes[1] == 0x4F && bytes[2] == 0x53 {
                push_fact(
                    &mut self.facts,
                    "Starts through AmigaDOS, so it needs a Kickstart that mounts the filesystem below".to_owned(),
                    "an AmigaDOS bootblock".to_owned(),
                );
            } else if bytes[0] == 0 && bytes[1] == 0 && bytes[2] == 0 && bytes[3] == 0 {
                push_fact(
                    &mut self.facts,
                    "Not bootable: it has to be inserted after something else has started".to_owned(),
                    "an empty bootblock".to_owned(),
                );
            } else {
                // A bootblock that is not AmigaDOS's is either a loader that
                // takes the machine over or an AmigaDOS one that has been
                // damaged; nothing here can tell them apart without running
                // the code, so both readings are given.
                let head4 = slice_head(bytes);
                let mut because = String::new();
                push_str(&mut because, "a custom bootblock beginning ");
                let shown_head = show(&head4);
                push_str(&mut because, shown_head.as_str());
                push_fact(
                    &mut self.facts,
                    "Does not start through AmigaDOS: it either boots itself and needs no Workbench, or its bootblock is damaged".to_owned(),
                    because,
                );
            }
        }
        assert(facts_view(self.facts@) =~= facts_view(old(self).facts@) + boot_part(bytes@));
    }

    /// What the filesystem is, described rather than dated: which release
    /// first mounted which dostype is not recorded anywhere to be relied on.
    fn volume(&mut self, dostype: &Option<(String, u32)>)
        ensures
            facts_view(final(self).facts@) == facts_view(old(self).facts@) + volume_part(*dostype),
            final(self).libraries == old(self).libraries,
    {
        match dostype {
            Some((label, raw)) => {
                let mut what = String::new();
                push_str(&mut what, "Formatted as ");
                push_str(&mut what, label.as_str());
                let mut because = String::new();
                push_str(&mut because, "dostype 0x");
                push_hex_padded(&mut because, *raw, 8);
                push_str(&mut because, " in the bootblock");
                push_fact(&mut self.facts, what, because);
            },
            None => {},
        }
        assert(facts_view(self.facts@) =~= facts_view(old(self).facts@) + volume_part(*dostype));
    }

    /// Libraries that place a floor under the Kickstart version.
    fn libraries(&mut self, bytes: &[u8])
        requires
            old(self).libraries@.len() == 0,
        ensures
            facts_view(final(self).facts@) == facts_view(old(self).facts@) + libraries_part(bytes@),
            final(self).libraries@.map_values(|l: String| l@) == libraries_found(bytes@),
    {
        let wanted = release_2();
        let mut found: Vec<String> = Vec::new();
        let mut list = String::new();
        let mut i: usize = 0;
        while i < wanted.len()
            invariant
                i <= wanted@.len(),
                wanted@.map_values(|s: &'static str| s@) == release_2_libraries(),
                found@.map_values(|l: String| l@) == release_2_libraries().take(i as int).filter(names(bytes@)),
                list@ == joined(found@.map_values(|l: String| l@)),
            decreases wanted@.len() - i,
        {
            let name = wanted[i];
            let needle = ascii_bytes(name);
            let ghost before = found@.map_values(|l: String| l@);
            proof {
                assert(release_2_libraries()[i as int] == name@);
                assert(release_2_libraries().take(i + 1) =~= release_2_libraries().take(i as int).push(name@));
                release_2_libraries().take(i as int).lemma_filter_push(name@, names(bytes@));
            }
            if contains_name(bytes, &needle) {
                if found.len() > 0 {
                    push_str(&mut list, ", ");
                }
                push_str(&mut list, name);
                found.push(name.to_owned());
                proof {
                    assert(found@.map_values(|l: String| l@) =~= before.push(name@));
                    assert(before.push(name@).drop_last() =~= before);
                }
            }
            i = i + 1;
        }
        assert(release_2_libraries().take(i as int) =~= release_2_libraries());
        if found.len() > 0 {
            let mut because = String::new();
            push_str(&mut because, "it opens ");
            push_str(&mut because, list.as_str());
            push_str(&mut because, ", which Release 2 introduced");
            push_fact(&mut self.facts, "Needs at least Kickstart 2.0".to_owned(), because);
        }
        assert(facts_view(self.facts@) =~= facts_view(old(self).facts@) + libraries_part(bytes@));
        self.libraries = found;
    }
}

/// The first four bytes of a bootblock.
fn slice_head(bytes: &[u8]) -> (r: Vec<u8>)
    requires
        bytes@.len() >= 4,
    ensures
        r@ == bytes@.take(4),
{
    let r = vec![bytes[0], bytes[1], bytes[2], bytes[3]];
    assert(r@ =~= bytes@.take(4));
    r
}

} // verus!
