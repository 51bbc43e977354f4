//! What an image is, and what state it is in: the facts an inspection
//! reports, and the rules that turn them into faults and JSON.
//!
//! The container, the bootblock and the volume are reported separately:
//! real images disagree on them often enough that a single answer would
//! lose the interesting cases.
use vstd::prelude::*;

use crate::convert::Kind;
use crate::json::{
    JsonView, Value, fields_view, hex, items_view, latin1_chars, lemma_fields_view, push_hex,
    str_array, strs, zero_pad,
};
use crate::text::{decimal, push_char, push_decimal, push_str};

verus! {

/// The most a compressed image may expand to.
///
/// A policy cap, not a format limit: everything reads a whole image into
/// memory, and a few kilobytes of crafted gzip can ask for terabytes. Half a
/// gigabyte covers any real compressed image by a wide margin.
pub const MAX_DECOMPRESSED: usize = 536870912;

/// The most of a `FILE_ID.DIZ` to read.
///
/// The BBS convention is ten lines of forty-five characters. Eight kilobytes
/// is far above anything real — but it is a cap rather than a guess, because
/// the size comes off the disk.
pub const MAX_DESCRIPTION: usize = 8192;

/// A problem found in an image.
///
/// Carries a stable code as well as a message. The message is for people and
/// may be reworded; the code is part of the scriptable surface and does not
/// change, because batch runs match on it.
#[derive(Debug, Clone)]
pub struct Fault {
    /// Stable machine-readable identifier, kebab-case.
    pub code: &'static str,
    /// Human-readable description.
    pub message: String,
}

/// A fault as plain values: code and message.
pub open spec fn fault_view(f: Fault) -> (Seq<char>, Seq<char>) {
    (f.code@, f.message@)
}

/// What is wrong with one datestamp.
#[derive(Debug, Clone, Copy, PartialEq, Eq, Structural)]
pub enum DateFault {
    /// The day count is zero: the clock was never set.
    DayZero,
    /// More minutes than a day holds.
    MinutesOutOfRange,
    /// More ticks than a minute holds.
    TicksOutOfRange,
}

/// The stable code of a datestamp fault.
pub open spec fn date_fault_code(f: DateFault) -> &'static str {
    match f {
        DateFault::DayZero => "datestamp-day-zero",
        DateFault::MinutesOutOfRange => "datestamp-minutes-range",
        DateFault::TicksOutOfRange => "datestamp-ticks-range",
    }
}

/// How a datestamp fault reads in a message.
pub open spec fn date_fault_text(f: DateFault) -> &'static str {
    match f {
        DateFault::DayZero => "the day is zero",
        DateFault::MinutesOutOfRange => "the minute of the day is out of range",
        DateFault::TicksOutOfRange => "the tick of the minute is out of range",
    }
}

impl DateFault {
    /// The stable code this fault is reported by.
    pub fn code(self) -> (r: &'static str)
        ensures
            r == date_fault_code(self),
    {
        match self {
            DateFault::DayZero => "datestamp-day-zero",
            DateFault::MinutesOutOfRange => "datestamp-minutes-range",
            DateFault::TicksOutOfRange => "datestamp-ticks-range",
        }
    }

    /// How the fault reads in a message.
    pub fn text(self) -> (r: &'static str)
        ensures
            r == date_fault_text(self),
    {
        match self {
            DateFault::DayZero => "the day is zero",
            DateFault::MinutesOutOfRange => "the minute of the day is out of range",
            DateFault::TicksOutOfRange => "the tick of the minute is out of range",
        }
    }
}

/// What a rootblock says about itself.
#[derive(Debug, Clone)]
pub struct RootFacts {
    /// Whether its checksum verifies.
    pub checksum_valid: bool,
    /// Whether the bitmap-valid flag is set.
    pub bitmap_flag_valid: bool,
    /// The name length it claims, in a field of thirty bytes.
    pub declared_name_len: u8,
    /// Faults of the creation datestamp.
    pub created: Vec<DateFault>,
    /// Faults of the volume-altered datestamp.
    pub modified: Vec<DateFault>,
    /// Faults of the root-altered datestamp.
    pub root_altered: Vec<DateFault>,
}

/// The faults of one labelled datestamp.
pub open spec fn stamp_faults(label: Seq<char>, fs: Seq<DateFault>) -> Seq<(Seq<char>, Seq<char>)> {
    fs.map_values(|f: DateFault| (date_fault_code(f)@, label + " datestamp: "@ + date_fault_text(f)@))
}

/// Everything wrong with an image, given what its bootblock and rootblock say.
///
/// Deliberately not included: an invalid bootblock checksum, a foreign
/// bootblock prefix, and the absence of a volume. Each is normal on real
/// disks, and treating them as faults would drown the real findings.
pub open spec fn faults_of(unknown_flags: Option<u8>, volume: Option<RootFacts>) -> Seq<(Seq<char>, Seq<char>)> {
    let boot = match unknown_flags {
        Some(f) if f != 0 => seq![
            (
                "dostype-unknown-bits"@,
                "dostype carries undocumented bits 0x"@ + zero_pad(hex(f as nat), 2),
            ),
        ],
        _ => Seq::empty(),
    };
    match volume {
        None => boot,
        Some(r) => boot + (if r.checksum_valid {
            Seq::empty()
        } else {
            seq![("rootblock-checksum"@, "rootblock checksum does not match"@)]
        }) + (if r.bitmap_flag_valid {
            Seq::empty()
        } else {
            seq![("bitmap-flag-clear"@, "bitmap-valid flag is clear \u{2014} the map may be stale (AV-003)"@)]
        }) + (if r.declared_name_len > 30 {
            seq![
                (
                    "name-length-overflow"@,
                    "volume name length claims "@ + decimal(r.declared_name_len as nat)
                        + " bytes in a 30-byte field"@,
                ),
            ]
        } else {
            Seq::empty()
        }) + stamp_faults("created"@, r.created@) + stamp_faults("modified"@, r.modified@)
            + stamp_faults("root-altered"@, r.root_altered@),
    }
}

/// The rootblock facts behind an optional reference.
pub open spec fn deref_root(v: Option<&RootFacts>) -> Option<RootFacts> {
    match v {
        Some(r) => Some(*r),
        None => None,
    }
}

/// Append `n` as at least two lower-case hexadecimal digits.
fn push_hex2(out: &mut String, n: u8)
    ensures
        final(out)@ == old(out)@ + zero_pad(hex(n as nat), 2),
{
    let ghost start = out@;
    if n < 16 {
        push_char(out, '0');
        assert(hex(n as nat).len() == 1);
        assert(zero_pad(hex(n as nat), 2) =~= seq!['0'] + zero_pad(hex(n as nat), 1));
    } else {
        assert(hex(n as nat) == hex((n / 16) as nat).push(crate::text::hex_digit((n % 16) as nat)));
        assert(hex((n / 16) as nat).len() == 1);
    }
    push_hex(out, n as u32);
    assert(out@ =~= start + zero_pad(hex(n as nat), 2));
}

/// Append the faults of one labelled datestamp.
fn push_stamp_faults(out: &mut Vec<Fault>, label: &str, fs: &Vec<DateFault>)
    ensures
        final(out)@.map_values(|f: Fault| fault_view(f)) == old(out)@.map_values(|f: Fault| fault_view(f))
            + stamp_faults(label@, fs@),
{
    let ghost start = out@.map_values(|f: Fault| fault_view(f));
    let mut i: usize = 0;
    while i < fs.len()
        invariant
            i <= fs@.len(),
            out@.map_values(|f: Fault| fault_view(f)) == start + stamp_faults(label@, fs@.take(i as int)),
        decreases fs@.len() - i,
    {
        let f = fs[i];
        let mut message = String::new();
        push_str(&mut message, label);
        push_str(&mut message, " datestamp: ");
        push_str(&mut message, f.text());
        let ghost before = out@;
        out.push(Fault { code: f.code(), message });
        assert(out@.map_values(|f: Fault| fault_view(f)) =~= before.map_values(|f: Fault| fault_view(f)).push(
            (date_fault_code(f)@, label@ + " datestamp: "@ + date_fault_text(f)@),
        ));
        i = i + 1;
        assert(stamp_faults(label@, fs@.take(i as int)) =~= stamp_faults(label@, fs@.take(i - 1)).push(
            (date_fault_code(f)@, label@ + " datestamp: "@ + date_fault_text(f)@),
        ));
    }
    assert(fs@.take(i as int) =~= fs@);
}

/// Append one fault.
fn push_fault(out: &mut Vec<Fault>, code: &'static str, message: String)
    ensures
        final(out)@.map_values(|f: Fault| fault_view(f)) == old(out)@.map_values(|f: Fault| fault_view(f))
            .push((code@, message@)),
{
    let ghost before = out@;
    out.push(Fault { code, message });
    assert(out@.map_values(|f: Fault| fault_view(f)) =~= before.map_values(|f: Fault| fault_view(f)).push(
        (code@, message@),
    ));
}

/// Everything wrong with an image, from the undocumented dostype bits its
/// bootblock carries (where it has one) and its rootblock (where it has one).
///
/// Computed here rather than in a front end, so the human and JSON outputs
/// cannot drift apart.
pub fn faults(unknown_flags: Option<u8>, volume: Option<&RootFacts>) -> (r: Vec<Fault>)
    ensures
        r@.map_values(|f: Fault| fault_view(f)) == faults_of(unknown_flags, deref_root(volume)),
{
    let mut out: Vec<Fault> = Vec::new();
    match unknown_flags {
        Some(f) => {
            if f != 0 {
                let mut message = String::new();
                push_str(&mut message, "dostype carries undocumented bits 0x");
                push_hex2(&mut message, f);
                push_fault(&mut out, "dostype-unknown-bits", message);
            }
        },
        None => {},
    }
    match volume {
        None => {
            assert(out@.map_values(|f: Fault| fault_view(f)) =~= faults_of(unknown_flags, deref_root(volume)));
        },
        Some(r) => {
            if !r.checksum_valid {
                push_fault(&mut out, "rootblock-checksum", "rootblock checksum does not match".to_owned());
            }
            if !r.bitmap_flag_valid {
                push_fault(
                    &mut out,
                    "bitmap-flag-clear",
                    "bitmap-valid flag is clear \u{2014} the map may be stale (AV-003)".to_owned(),
                );
            }
            if r.declared_name_len > 30 {
                let mut message = String::new();
                push_str(&mut message, "volume name length claims ");
                push_decimal(&mut message, r.declared_name_len as u64);
                push_str(&mut message, " bytes in a 30-byte field");
                push_fault(&mut out, "name-length-overflow", message);
            }
            push_stamp_faults(&mut out, "created", &r.created);
            push_stamp_faults(&mut out, "modified", &r.modified);
            push_stamp_faults(&mut out, "root-altered", &r.root_altered);
            assert(out@.map_values(|f: Fault| fault_view(f)) =~= faults_of(unknown_flags, deref_root(volume)));
        },
    }
    out
}

/// The model of one fault as JSON.
pub open spec fn fault_json(f: Fault) -> JsonView {
    JsonView::Obj(seq![("code"@, JsonView::Str(f.code@)), ("message"@, JsonView::Str(f.message@))])
}

/// The model of the faults as JSON.
pub open spec fn faults_json(fs: Seq<Fault>) -> JsonView {
    JsonView::Arr(fs.map_values(|f: Fault| fault_json(f)))
}

/// One fault as JSON.
fn fault_to_json(f: &Fault) -> (v: Value)
    ensures
        v@ == fault_json(*f),
{
    let fields = vec![("code", Value::str(f.code)), ("message", Value::str(f.message.as_str()))];
    proof {
        lemma_fields_view(fields@);
        assert(fields_view(fields@) =~= fault_json(*f)->Obj_0);
    }
    Value::Obj(fields)
}

/// The faults as JSON, each a stable code and a message.
pub fn faults_to_json(fs: &Vec<Fault>) -> (v: Value)
    ensures
        v@ == faults_json(fs@),
{
    let mut items: Vec<Value> = Vec::new();
    let mut i: usize = 0;
    while i < fs.len()
        invariant
            i <= fs@.len(),
            items_view(items@) == fs@.take(i as int).map_values(|f: Fault| fault_json(f)),
        decreases fs@.len() - i,
    {
        let ghost before = items@;
        items.push(fault_to_json(&fs[i]));
        assert(items@.drop_last() =~= before);
        i = i + 1;
        assert(items_view(items@) =~= fs@.take(i as int).map_values(|f: Fault| fault_json(f)));
    }
    assert(fs@.take(i as int) =~= fs@);
    Value::Arr(items)
}


/// How a flux capture was made, as the file itself declares it.
///
/// Separate from the track table because it describes the capture rather
/// than the disk: two files of the same disk can differ in every field here
/// and hold the same data.
#[derive(Debug, Clone, Copy)]
pub struct FluxCapture {
    /// Revolutions stored per track.
    pub revolutions: u8,
    /// Nanoseconds per stored tick.
    pub tick_ns: u32,
    /// Rotational speed the capture declares: 360 RPM or 300.
    pub rpm: u16,
    /// Flux data begins at the index pulse.
    pub index_aligned: bool,
    /// The timings have been normalised rather than kept as captured.
    pub normalised: bool,
    /// Something other than SuperCard Pro hardware wrote the file.
    pub foreign_creator: bool,
    /// The disk-type byte, unmodified. Reported, never dispatched on.
    pub disk_type: u8,
    /// The version byte the header carries.
    pub version: u8,
}

/// The model of a capture's facts as JSON.
pub open spec fn flux_json(c: FluxCapture) -> JsonView {
    JsonView::Obj(
        seq![
            ("revolutions"@, JsonView::Num(c.revolutions as nat)),
            ("tick_ns"@, JsonView::Num(c.tick_ns as nat)),
            ("rpm"@, JsonView::Num(c.rpm as nat)),
            ("index_aligned"@, JsonView::Bool(c.index_aligned)),
            ("normalised"@, JsonView::Bool(c.normalised)),
            ("foreign_creator"@, JsonView::Bool(c.foreign_creator)),
            ("disk_type"@, JsonView::Num(c.disk_type as nat)),
            ("version"@, JsonView::Num(c.version as nat)),
        ],
    )
}

impl FluxCapture {
    /// The capture facts as JSON.
    pub fn to_json(&self) -> (v: Value)
        ensures
            v@ == flux_json(*self),
    {
        let fields = vec![
            ("revolutions", Value::Num(self.revolutions as u64)),
            ("tick_ns", Value::Num(self.tick_ns as u64)),
            ("rpm", Value::Num(self.rpm as u64)),
            ("index_aligned", Value::Bool(self.index_aligned)),
            ("normalised", Value::Bool(self.normalised)),
            ("foreign_creator", Value::Bool(self.foreign_creator)),
            ("disk_type", Value::Num(self.disk_type as u64)),
            ("version", Value::Num(self.version as u64)),
        ];
        proof {
            lemma_fields_view(fields@);
            assert(fields_view(fields@) =~= flux_json(*self)->Obj_0);
        }
        Value::Obj(fields)
    }
}

/// A completeness figure as a whole percentage: `part` of `whole`, rounded
/// down, and 0 for an empty whole.
pub open spec fn percent(part: nat, whole: nat) -> nat {
    if whole == 0 {
        0
    } else if part * 100 > usize::MAX {
        (usize::MAX as nat) / whole
    } else {
        (part * 100) / whole
    }
}

/// Integer percentage, saturating the scaled part as the platform word does.
pub fn percent_of(part: usize, whole: usize) -> (r: usize)
    ensures
        r == percent(part as nat, whole as nat),
{
    if whole == 0 {
        return 0;
    }
    let scaled = if part > usize::MAX / 100 {
        usize::MAX
    } else {
        part * 100
    };
    scaled / whole
}

/// What was recovered when a raw-track container was assembled into a volume.
///
/// A volume reported alongside one of these is a reconstruction: sectors that
/// could not be decoded are zeros, so `sectors_placed` is how much of the
/// listing is real.
#[derive(Debug, Clone, Copy)]
pub struct AssemblyInfo {
    /// Sectors actually recovered.
    pub sectors_placed: usize,
    /// Sectors a whole disk would hold.
    pub sectors_total: usize,
    /// Tracks contributed by ordinary sector tracks.
    pub from_sector_tracks: usize,
    /// Tracks contributed by decoding raw MFM.
    pub from_raw_tracks: usize,
}

impl AssemblyInfo {
    /// How complete the reconstruction is, as a percentage.
    pub fn percent_complete(&self) -> (r: usize)
        ensures
            r == percent(self.sectors_placed as nat, self.sectors_total as nat),
    {
        percent_of(self.sectors_placed, self.sectors_total)
    }
}

/// The model of an assembly's account as JSON.
pub open spec fn assembly_json(a: AssemblyInfo) -> JsonView {
    JsonView::Obj(
        seq![
            ("sectors_placed"@, JsonView::Num(a.sectors_placed as nat)),
            ("sectors_total"@, JsonView::Num(a.sectors_total as nat)),
            ("from_sector_tracks"@, JsonView::Num(a.from_sector_tracks as nat)),
            ("from_raw_tracks"@, JsonView::Num(a.from_raw_tracks as nat)),
            ("percent_complete"@, JsonView::Num(percent(a.sectors_placed as nat, a.sectors_total as nat))),
        ],
    )
}

impl AssemblyInfo {
    /// The assembly's account as JSON.
    pub fn to_json(&self) -> (v: Value)
        ensures
            v@ == assembly_json(*self),
    {
        let fields = vec![
            ("sectors_placed", Value::Num(self.sectors_placed as u64)),
            ("sectors_total", Value::Num(self.sectors_total as u64)),
            ("from_sector_tracks", Value::Num(self.from_sector_tracks as u64)),
            ("from_raw_tracks", Value::Num(self.from_raw_tracks as u64)),
            ("percent_complete", Value::Num(self.percent_complete() as u64)),
        ];
        proof {
            lemma_fields_view(fields@);
            assert(fields_view(fields@) =~= assembly_json(*self)->Obj_0);
        }
        Value::Obj(fields)
    }
}

/// A raw-track container's table, summarised for reporting.
///
/// Mixed track kinds within one image are the signature of copy protection,
/// not a defect.
#[derive(Debug, Clone)]
pub struct TrackTable {
    /// Tracks the table declares.
    pub declared: usize,
    /// Tracks holding ordinary AmigaDOS sectors.
    pub sectors: usize,
    /// Tracks holding raw MFM.
    pub raw_mfm: usize,
    /// Tracks holding nothing.
    pub empty: usize,
    /// Tracks whose data the file actually reaches.
    pub present: usize,
    /// Problems found walking the table.
    pub faults: Vec<String>,
    /// Raw tracks that decode as an ordinary track: eleven sectors, numbered
    /// 0 to 10, every checksum agreeing.
    pub standard_tracks: usize,
    /// Sectors decoded from raw tracks whose own two checksums agree.
    pub sound_sectors: usize,
    /// Sync marks leading to no sector: a protection signature, not a fault.
    pub stray_syncs: usize,
    /// Sectors that decode soundly but are not legal MFM.
    pub illegally_encoded_sectors: usize,
}

/// The model of a track table as JSON.
pub open spec fn track_table_json(t: TrackTable) -> JsonView {
    JsonView::Obj(
        seq![
            ("declared"@, JsonView::Num(t.declared as nat)),
            ("sectors"@, JsonView::Num(t.sectors as nat)),
            ("raw_mfm"@, JsonView::Num(t.raw_mfm as nat)),
            ("empty"@, JsonView::Num(t.empty as nat)),
            ("present"@, JsonView::Num(t.present as nat)),
            ("standard_tracks"@, JsonView::Num(t.standard_tracks as nat)),
            ("sound_sectors"@, JsonView::Num(t.sound_sectors as nat)),
            ("stray_syncs"@, JsonView::Num(t.stray_syncs as nat)),
            ("illegally_encoded_sectors"@, JsonView::Num(t.illegally_encoded_sectors as nat)),
            ("faults"@, strs(t.faults@)),
        ],
    )
}

impl TrackTable {
    /// The track table as JSON.
    pub fn to_json(&self) -> (v: Value)
        ensures
            v@ == track_table_json(*self),
    {
        let fields = vec![
            ("declared", Value::Num(self.declared as u64)),
            ("sectors", Value::Num(self.sectors as u64)),
            ("raw_mfm", Value::Num(self.raw_mfm as u64)),
            ("empty", Value::Num(self.empty as u64)),
            ("present", Value::Num(self.present as u64)),
            ("standard_tracks", Value::Num(self.standard_tracks as u64)),
            ("sound_sectors", Value::Num(self.sound_sectors as u64)),
            ("stray_syncs", Value::Num(self.stray_syncs as u64)),
            ("illegally_encoded_sectors", Value::Num(self.illegally_encoded_sectors as u64)),
            ("faults", str_array(&self.faults)),
        ];
        proof {
            lemma_fields_view(fields@);
            assert(fields_view(fields@) =~= track_table_json(*self)->Obj_0);
        }
        Value::Obj(fields)
    }
}

/// A disk's own description of itself, from `FILE_ID.DIZ`.
#[derive(Debug, Clone)]
pub struct Description {
    /// The filename as stored, preserving its original case.
    pub file: String,
    /// The block the file header occupies.
    pub block: u32,
    /// The contents, Latin-1 decoded.
    pub text: String,
    /// What the header said the file's length was.
    pub declared_size: u32,
    /// Whether the text was cut at [`MAX_DESCRIPTION`].
    pub truncated: bool,
}

/// The model of a description as JSON.
pub open spec fn description_json(d: Description) -> JsonView {
    JsonView::Obj(
        seq![
            ("file"@, JsonView::Str(d.file@)),
            ("block"@, JsonView::Num(d.block as nat)),
            ("text"@, JsonView::Str(d.text@)),
            ("declared_size"@, JsonView::Num(d.declared_size as nat)),
            ("truncated"@, JsonView::Bool(d.truncated)),
        ],
    )
}

impl Description {
    /// The description read from a file's contents: Latin-1 decoded, and cut
    /// at [`MAX_DESCRIPTION`] bytes, because the size comes off the disk.
    pub fn read(file: String, block: u32, contents: &[u8], declared_size: u32) -> (d: Description)
        ensures
            d.file == file,
            d.block == block,
            d.declared_size == declared_size,
            d.truncated == (contents@.len() > MAX_DESCRIPTION),
            d.text@ == latin1_chars(
                contents@.take(if contents@.len() > MAX_DESCRIPTION {
                    MAX_DESCRIPTION as int
                } else {
                    contents@.len() as int
                }),
            ),
    {
        let keep = if contents.len() > MAX_DESCRIPTION {
            MAX_DESCRIPTION
        } else {
            contents.len()
        };
        let mut text = String::new();
        let mut i: usize = 0;
        while i < keep
            invariant
                keep <= contents@.len(),
                i <= keep,
                text@ == latin1_chars(contents@.take(i as int)),
            decreases keep - i,
        {
            push_char(&mut text, contents[i] as char);
            i = i + 1;
            assert(text@ =~= latin1_chars(contents@.take(i as int)));
        }
        Description { file, block, text, declared_size, truncated: contents.len() > MAX_DESCRIPTION }
    }

    /// The disk's own description as JSON.
    pub fn to_json(&self) -> (v: Value)
        ensures
            v@ == description_json(*self),
    {
        let fields = vec![
            ("file", Value::str(self.file.as_str())),
            ("block", Value::Num(self.block as u64)),
            ("text", Value::str(self.text.as_str())),
            ("declared_size", Value::Num(self.declared_size as u64)),
            ("truncated", Value::Bool(self.truncated)),
        ];
        proof {
            lemma_fields_view(fields@);
            assert(fields_view(fields@) =~= description_json(*self)->Obj_0);
        }
        Value::Obj(fields)
    }
}


/// Whether a Latin-1 byte is white space.
pub open spec fn is_space(b: u8) -> bool {
    (9 <= b <= 13) || b == 32 || b == 0x85 || b == 0xA0
}

/// Whether `s[a..b]` is `s` with white space trimmed from both ends.
pub open spec fn trims_to(s: Seq<u8>, a: int, b: int) -> bool {
    &&& 0 <= a <= b <= s.len()
    &&& forall|i: int| 0 <= i < a ==> is_space(#[trigger] s[i])
    &&& forall|i: int| b <= i < s.len() ==> is_space(#[trigger] s[i])
    &&& a < b ==> !is_space(s[a]) && !is_space(s[b - 1])
}

/// A fixed-width text field of a drive, as stored: Latin-1, trimmed of the
/// white space that pads it.
pub fn field_text(raw: &[u8]) -> (r: String)
    ensures
        exists|a: int, b: int| trims_to(raw@, a, b) && r@ == latin1_chars(raw@.subrange(a, b)),
{
    let mut a: usize = 0;
    while a < raw.len() && (raw[a] >= 9 && raw[a] <= 13 || raw[a] == 32 || raw[a] == 0x85 || raw[a] == 0xA0)
        invariant
            a <= raw@.len(),
            forall|i: int| 0 <= i < a ==> is_space(#[trigger] raw@[i]),
        decreases raw@.len() - a,
    {
        a = a + 1;
    }
    let mut b: usize = raw.len();
    while b > a && (raw[b - 1] >= 9 && raw[b - 1] <= 13 || raw[b - 1] == 32 || raw[b - 1] == 0x85 || raw[b - 1] == 0xA0)
        invariant
            a <= b <= raw@.len(),
            forall|i: int| b <= i < raw@.len() ==> is_space(#[trigger] raw@[i]),
        decreases b - a,
    {
        b = b - 1;
    }
    let mut text = String::new();
    let mut i: usize = a;
    while i < b
        invariant
            a <= i <= b <= raw@.len(),
            text@ == latin1_chars(raw@.subrange(a as int, i as int)),
        decreases b - i,
    {
        push_char(&mut text, raw[i] as char);
        i = i + 1;
        assert(text@ =~= latin1_chars(raw@.subrange(a as int, i as int)));
    }
    assert(trims_to(raw@, a as int, b as int));
    text
}

/// A device's Rigid Disk Block, as an inspection reports it.
///
/// The geometry here is what the drive declares, which is not the geometry
/// used to address blocks: block numbers are linear from the start of the
/// image.
#[derive(Debug, Clone)]
pub struct RdbInfo {
    /// The block the `RDSK` structure occupies: 0 on almost every device.
    pub block: u32,
    /// Whether its checksum verifies.
    pub checksum_valid: bool,
    /// Device block size in bytes.
    pub block_size: u32,
    /// Physical cylinders.
    pub cylinders: u32,
    /// Heads.
    pub heads: u32,
    /// Sectors per track.
    pub sectors: u32,
    /// Highest block used by the reserved area.
    pub high_rdsk_block: u32,
    /// Drive vendor, as stored.
    pub vendor: String,
    /// Drive product, as stored.
    pub product: String,
    /// Drive revision, as stored.
    pub revision: String,
}

/// The model of a Rigid Disk Block as JSON.
pub open spec fn rdb_json(r: RdbInfo) -> JsonView {
    JsonView::Obj(
        seq![
            ("block"@, JsonView::Num(r.block as nat)),
            ("checksum_valid"@, JsonView::Bool(r.checksum_valid)),
            ("block_size"@, JsonView::Num(r.block_size as nat)),
            ("cylinders"@, JsonView::Num(r.cylinders as nat)),
            ("heads"@, JsonView::Num(r.heads as nat)),
            ("sectors"@, JsonView::Num(r.sectors as nat)),
            ("high_rdsk_block"@, JsonView::Num(r.high_rdsk_block as nat)),
            ("vendor"@, JsonView::Str(r.vendor@)),
            ("product"@, JsonView::Str(r.product@)),
            ("revision"@, JsonView::Str(r.revision@)),
        ],
    )
}

impl RdbInfo {
    /// This device's Rigid Disk Block as JSON.
    pub fn to_json(&self) -> (v: Value)
        ensures
            v@ == rdb_json(*self),
    {
        let fields = vec![
            ("block", Value::Num(self.block as u64)),
            ("checksum_valid", Value::Bool(self.checksum_valid)),
            ("block_size", Value::Num(self.block_size as u64)),
            ("cylinders", Value::Num(self.cylinders as u64)),
            ("heads", Value::Num(self.heads as u64)),
            ("sectors", Value::Num(self.sectors as u64)),
            ("high_rdsk_block", Value::Num(self.high_rdsk_block as u64)),
            ("vendor", Value::str(self.vendor.as_str())),
            ("product", Value::str(self.product.as_str())),
            ("revision", Value::str(self.revision.as_str())),
        ];
        proof {
            lemma_fields_view(fields@);
            assert(fields_view(fields@) =~= rdb_json(*self)->Obj_0);
        }
        Value::Obj(fields)
    }
}

/// One partition, as an inspection reports it.
///
/// The dostype here is what the partition table claims, which is advisory:
/// the partition's own bootblock is authoritative. `volume_name` came from
/// mounting, so it reflects the bootblock where the two disagree.
#[derive(Debug, Clone)]
pub struct PartitionInfo {
    /// Drive name: `DH0` and the like.
    pub name: String,
    /// First cylinder, inclusive.
    pub low_cylinder: u32,
    /// Last cylinder, inclusive.
    pub high_cylinder: u32,
    /// First block on the device.
    pub first_block: u64,
    /// How many blocks the partition spans.
    pub blocks: u64,
    /// Block size in bytes.
    pub block_size: u32,
    /// Reserved blocks at the partition's start, usually 2.
    pub reserved: u32,
    /// The dostype the partition table claims.
    pub dostype: u32,
    /// Whether the partition is marked bootable.
    pub bootable: bool,
    /// Whether its `PART` checksum verifies.
    pub checksum_valid: bool,
    /// The volume label, where the partition mounted.
    pub volume_name: Option<String>,
    /// Why it did not mount, where it did not.
    pub mount_error: Option<String>,
}

/// The model of an optional string as JSON.
pub open spec fn opt_str(s: Option<String>) -> JsonView {
    match s {
        Some(x) => JsonView::Str(x@),
        None => JsonView::Null,
    }
}

/// An optional string as JSON.
fn opt_str_json(s: &Option<String>) -> (v: Value)
    ensures
        v@ == opt_str(*s),
{
    match s {
        Some(x) => Value::str(x.as_str()),
        None => Value::Null,
    }
}

/// The model of a partition as JSON.
pub open spec fn partition_json(p: PartitionInfo) -> JsonView {
    JsonView::Obj(
        seq![
            ("name"@, JsonView::Str(p.name@)),
            ("low_cylinder"@, JsonView::Num(p.low_cylinder as nat)),
            ("high_cylinder"@, JsonView::Num(p.high_cylinder as nat)),
            ("first_block"@, JsonView::Num(p.first_block as nat)),
            ("blocks"@, JsonView::Num(p.blocks as nat)),
            ("block_size"@, JsonView::Num(p.block_size as nat)),
            ("reserved"@, JsonView::Num(p.reserved as nat)),
            ("dostype"@, JsonView::Num(p.dostype as nat)),
            ("bootable"@, JsonView::Bool(p.bootable)),
            ("checksum_valid"@, JsonView::Bool(p.checksum_valid)),
            ("volume_name"@, opt_str(p.volume_name)),
            ("mount_error"@, opt_str(p.mount_error)),
        ],
    )
}

impl PartitionInfo {
    /// This partition as JSON.
    pub fn to_json(&self) -> (v: Value)
        ensures
            v@ == partition_json(*self),
    {
        let fields = vec![
            ("name", Value::str(self.name.as_str())),
            ("low_cylinder", Value::Num(self.low_cylinder as u64)),
            ("high_cylinder", Value::Num(self.high_cylinder as u64)),
            ("first_block", Value::Num(self.first_block)),
            ("blocks", Value::Num(self.blocks)),
            ("block_size", Value::Num(self.block_size as u64)),
            ("reserved", Value::Num(self.reserved as u64)),
            ("dostype", Value::Num(self.dostype as u64)),
            ("bootable", Value::Bool(self.bootable)),
            ("checksum_valid", Value::Bool(self.checksum_valid)),
            ("volume_name", opt_str_json(&self.volume_name)),
            ("mount_error", opt_str_json(&self.mount_error)),
        ];
        proof {
            lemma_fields_view(fields@);
            assert(fields_view(fields@) =~= partition_json(*self)->Obj_0);
        }
        Value::Obj(fields)
    }
}

/// The block size a partition is read with: its own, or 512 where the table
/// records none.
pub fn partition_block_size(declared: u32) -> (r: u32)
    ensures
        r == if declared == 0 { 512 } else { declared },
{
    if declared == 0 {
        512
    } else {
        declared
    }
}

/// The shape a volume is addressed with.
#[derive(Debug, Clone, Copy, PartialEq, Eq, Structural)]
pub struct Geometry {
    /// Cylinders.
    pub cylinders: u32,
    /// Heads.
    pub heads: u32,
    /// Sectors per track.
    pub sectors: u32,
    /// Bytes per block.
    pub block_size: u32,
    /// Reserved blocks at the start, which the rootblock's place depends on.
    pub reserved: u32,
}

/// Blocks a geometry addresses.
pub open spec fn blocks_of(g: Geometry) -> nat {
    (g.cylinders * g.heads * g.sectors) as nat
}

impl Geometry {
    /// Blocks this geometry addresses.
    pub fn total_blocks(&self) -> (r: u64)
        requires
            blocks_of(*self) <= u64::MAX,
        ensures
            r == blocks_of(*self),
    {
        let c = self.cylinders as u64;
        let h = self.heads as u64;
        let s = self.sectors as u64;
        assert(c * h <= 0xFFFF_FFFE_0000_0001) by (nonlinear_arith)
            requires
                c <= 0xFFFF_FFFF,
                h <= 0xFFFF_FFFF,
        ;
        let ch = c * h;
        assert(ch * s == blocks_of(*self)) by (nonlinear_arith)
            requires
                ch == c * h,
                c == self.cylinders,
                h == self.heads,
                s == self.sectors,
        ;
        ch * s
    }
}

/// Reserved blocks at the start of a floppy: the bootblock.
pub const FLOPPY_RESERVED: u32 = 2;

/// The geometry to mount a detected container with, if it can be mounted.
///
/// A raw volume carries no geometry of its own: heads and sectors are a
/// convention of whatever created it, and what matters is the block count,
/// which fixes where the rootblock sits. So a hardfile is a flat run of
/// blocks, and one below a floppy's worth (64 blocks) is nothing worth
/// mounting.
pub open spec fn geometry_of(kind: Kind, size: u64) -> Option<Geometry> {
    match kind {
        Kind::Adf { cylinders, sectors } => Some(
            Geometry { cylinders, heads: 2, sectors, block_size: 512, reserved: FLOPPY_RESERVED },
        ),
        Kind::Hardfile | Kind::RigidDisk => {
            let blocks = size / 512;
            if blocks > u32::MAX || blocks < 64 {
                None
            } else {
                Some(
                    Geometry {
                        cylinders: blocks as u32,
                        heads: 1,
                        sectors: 1,
                        block_size: 512,
                        reserved: FLOPPY_RESERVED,
                    },
                )
            }
        },
        _ => None,
    }
}

/// The geometry to mount a detected container of `size` bytes with.
pub fn geometry_for(kind: Kind, size: u64) -> (r: Option<Geometry>)
    ensures
        r == geometry_of(kind, size),
{
    match kind {
        Kind::Adf { cylinders, sectors } => Some(
            Geometry { cylinders, heads: 2, sectors, block_size: 512, reserved: FLOPPY_RESERVED },
        ),
        Kind::Hardfile | Kind::RigidDisk => {
            let blocks = size / 512;
            if blocks > u32::MAX as u64 || blocks < 64 {
                None
            } else {
                Some(
                    Geometry {
                        cylinders: blocks as u32,
                        heads: 1,
                        sectors: 1,
                        block_size: 512,
                        reserved: FLOPPY_RESERVED,
                    },
                )
            }
        },
        _ => None,
    }
}

/// Why a container that was identified holds no volume that can be read.
///
/// Not a failure: a raw-track container genuinely has no volume, and saying
/// so precisely beats calling the whole format unimplemented. `label` is how
/// the container is named to people.
pub open spec fn unreadable_reason(kind: Kind, label: Seq<char>, tracks: Option<TrackTable>) -> Seq<char> {
    match kind {
        Kind::Unknown => "reading an unrecognised container is not implemented yet"@,
        Kind::ExtendedAdf { .. } => match tracks {
            Some(t) => "a raw-track container holds tracks, not a volume \u{2014} "@ + decimal(
                t.sectors as nat,
            ) + " of its "@ + decimal(t.declared as nat) + " tracks hold ordinary sectors, "@ + decimal(
                t.raw_mfm as nat,
            ) + " hold raw MFM"@,
            None => "the track table could not be read"@,
        },
        Kind::Scp => match tracks {
            Some(t) => "a flux capture holds track timings, not a volume \u{2014} "@ + decimal(
                t.standard_tracks as nat,
            ) + " of its "@ + decimal(t.declared as nat) + " tracks decoded as ordinary AmigaDOS, yielding "@
                + decimal(t.sound_sectors as nat) + " sound sectors"@,
            None => "the SCP track table could not be read"@,
        },
        _ => "reading "@ + label + " is not implemented yet"@,
    }
}

/// Why a container that was identified holds no volume that can be read.
pub fn unreadable(kind: Kind, label: &str, tracks: &Option<TrackTable>) -> (r: String)
    ensures
        r@ == unreadable_reason(kind, label@, *tracks),
{
    let mut s = String::new();
    match kind {
        Kind::Unknown => {
            push_str(&mut s, "reading an unrecognised container is not implemented yet");
        },
        Kind::ExtendedAdf { .. } => match tracks {
            Some(t) => {
                push_str(&mut s, "a raw-track container holds tracks, not a volume \u{2014} ");
                push_decimal(&mut s, t.sectors as u64);
                push_str(&mut s, " of its ");
                push_decimal(&mut s, t.declared as u64);
                push_str(&mut s, " tracks hold ordinary sectors, ");
                push_decimal(&mut s, t.raw_mfm as u64);
                push_str(&mut s, " hold raw MFM");
            },
            None => {
                push_str(&mut s, "the track table could not be read");
            },
        },
        Kind::Scp => match tracks {
            Some(t) => {
                push_str(&mut s, "a flux capture holds track timings, not a volume \u{2014} ");
                push_decimal(&mut s, t.standard_tracks as u64);
                push_str(&mut s, " of its ");
                push_decimal(&mut s, t.declared as u64);
                push_str(&mut s, " tracks decoded as ordinary AmigaDOS, yielding ");
                push_decimal(&mut s, t.sound_sectors as u64);
                push_str(&mut s, " sound sectors");
            },
            None => {
                push_str(&mut s, "the SCP track table could not be read");
            },
        },
        _ => {
            push_str(&mut s, "reading ");
            push_str(&mut s, label);
            push_str(&mut s, " is not implemented yet");
        },
    }
    assert(s@ =~= unreadable_reason(kind, label@, *tracks));
    s
}

/// How many tracks a flux capture's header declares: `first` to `last`
/// inclusive, and one where the range is reversed.
pub open spec fn declared_tracks(first: u8, last: u8) -> nat {
    if last >= first {
        (last - first + 1) as nat
    } else {
        1
    }
}

/// What a flux capture's track table gets wrong: tracks whose bit-cell
/// estimate never settled, and a table that points at a different number of
/// tracks than the header declares.
pub open spec fn scp_faults(unlocked: usize, first: u8, last: u8, pointed: usize) -> Seq<Seq<char>> {
    (if unlocked > 0 {
        seq![
            decimal(unlocked as nat)
                + " tracks: the bit-cell estimate never settled near the 250 kbit/s data rate, so their decode is not to be trusted"@,
        ]
    } else {
        Seq::empty()
    }) + (if pointed != declared_tracks(first, last) {
        seq![
            "header declares tracks "@ + decimal(first as nat) + "-"@ + decimal(last as nat) + " ("@
                + decimal(declared_tracks(first, last)) + ") but the table points at "@ + decimal(
                pointed as nat,
            ),
        ]
    } else {
        Seq::empty()
    })
}

/// What a flux capture's track table gets wrong.
pub fn scp_table_faults(unlocked: usize, first: u8, last: u8, pointed: usize) -> (r: Vec<String>)
    ensures
        r@.map_values(|s: String| s@) == scp_faults(unlocked, first, last, pointed),
{
    let mut out: Vec<String> = Vec::new();
    if unlocked > 0 {
        let mut s = String::new();
        push_decimal(&mut s, unlocked as u64);
        push_str(
            &mut s,
            " tracks: the bit-cell estimate never settled near the 250 kbit/s data rate, so their decode is not to be trusted",
        );
        out.push(s);
    }
    let declared: usize = if last >= first {
        (last - first) as usize + 1
    } else {
        1
    };
    if pointed != declared {
        let mut s = String::new();
        push_str(&mut s, "header declares tracks ");
        push_decimal(&mut s, first as u64);
        push_str(&mut s, "-");
        push_decimal(&mut s, last as u64);
        push_str(&mut s, " (");
        push_decimal(&mut s, declared as u64);
        push_str(&mut s, ") but the table points at ");
        push_decimal(&mut s, pointed as u64);
        let ghost before = out@;
        out.push(s);
        assert(out@.map_values(|s: String| s@) =~= before.map_values(|s: String| s@).push(s@));
    }
    assert(out@.map_values(|s: String| s@) =~= scp_faults(unlocked, first, last, pointed));
    out
}

/// What decoding one raw track yielded.
#[derive(Debug, Clone, Copy)]
pub struct TrackDecode {
    /// Whether it is an ordinary track: eleven sectors, numbered 0 to 10,
    /// every checksum agreeing.
    pub standard: bool,
    /// Sectors whose own two checksums agree.
    pub sound: usize,
    /// Sync marks leading to no sector.
    pub stray_syncs: usize,
    /// Sectors that decode soundly but are not legal MFM.
    pub illegally_encoded: usize,
}

/// The decode counts summed over a table, each stopping at the largest `usize`.
pub struct Tally {
    /// Ordinary tracks.
    pub standard: nat,
    /// Sound sectors.
    pub sound: nat,
    /// Stray sync marks.
    pub stray: nat,
    /// Illegally encoded sectors.
    pub illegal: nat,
}

/// Nothing counted yet.
pub open spec fn no_tally() -> Tally {
    Tally { standard: 0, sound: 0, stray: 0, illegal: 0 }
}

/// One more decoded track counted.
pub open spec fn add_decode(t: Tally, d: TrackDecode) -> Tally {
    Tally {
        standard: if d.standard { crate::assemble::sat(t.standard + 1) } else { t.standard },
        sound: crate::assemble::sat(t.sound + d.sound as nat),
        stray: crate::assemble::sat(t.stray + d.stray_syncs as nat),
        illegal: crate::assemble::sat(t.illegal + d.illegally_encoded as nat),
    }
}

/// Whether exec counts are the tally `t`.
pub open spec fn counts_are(t: Tally, standard: usize, sound: usize, stray: usize, illegal: usize) -> bool {
    t.standard == standard && t.sound == sound && t.stray == stray && t.illegal == illegal
}

/// Count one decoded track, saturating.
fn count_decode(standard: &mut usize, sound: &mut usize, stray: &mut usize, illegal: &mut usize, d: TrackDecode)
    ensures
        forall|t: Tally|
            counts_are(t, *old(standard), *old(sound), *old(stray), *old(illegal)) ==> counts_are(
                add_decode(t, d),
                *final(standard),
                *final(sound),
                *final(stray),
                *final(illegal),
            ),
{
    if d.standard {
        *standard = standard.saturating_add(1);
    }
    *sound = sound.saturating_add(d.sound);
    *stray = stray.saturating_add(d.stray_syncs);
    *illegal = illegal.saturating_add(d.illegally_encoded);
}

/// One entry of an extended ADF's track table: whether the file reaches its
/// data, and for a raw track whose data it reaches, what that decoded to.
#[derive(Debug, Clone, Copy)]
pub struct TableTrack {
    /// Whether the file reaches this track's data.
    pub present: bool,
    /// The decode of a raw track whose data is reached; `None` otherwise.
    pub decode: Option<TrackDecode>,
}

/// The decode counts of an extended ADF's table.
pub open spec fn table_tally(ts: Seq<TableTrack>) -> Tally
    decreases ts.len(),
{
    if ts.len() == 0 {
        no_tally()
    } else {
        match ts.last().decode {
            Some(d) => add_decode(table_tally(ts.drop_last()), d),
            None => table_tally(ts.drop_last()),
        }
    }
}

/// How many entries of a table the file reaches.
pub open spec fn present_count(ts: Seq<TableTrack>) -> nat
    decreases ts.len(),
{
    if ts.len() == 0 {
        0
    } else {
        present_count(ts.drop_last()) + if ts.last().present {
            1nat
        } else {
            0nat
        }
    }
}

impl TrackTable {
    /// The track table of an extended ADF: the table's own count of sector,
    /// raw and empty tracks and its faults, and every raw track decoded,
    /// which turns a track count into a statement about how much of the disk
    /// is ordinary and how much is protection.
    pub fn of_extended(tracks: &Vec<TableTrack>, sectors: usize, raw_mfm: usize, empty: usize, faults: Vec<String>) -> (t: TrackTable)
        ensures
            t.declared == tracks@.len(),
            t.sectors == sectors && t.raw_mfm == raw_mfm && t.empty == empty,
            t.present == present_count(tracks@),
            t.faults == faults,
            counts_are(
                table_tally(tracks@),
                t.standard_tracks,
                t.sound_sectors,
                t.stray_syncs,
                t.illegally_encoded_sectors,
            ),
    {
        let mut standard: usize = 0;
        let mut sound: usize = 0;
        let mut stray: usize = 0;
        let mut illegal: usize = 0;
        let mut present: usize = 0;
        let mut i: usize = 0;
        while i < tracks.len()
            invariant
                i <= tracks@.len(),
                present == present_count(tracks@.take(i as int)),
                present <= i,
                counts_are(table_tally(tracks@.take(i as int)), standard, sound, stray, illegal),
            decreases tracks@.len() - i,
        {
            let t = tracks[i];
            proof {
                assert(tracks@.take(i + 1).drop_last() =~= tracks@.take(i as int));
            }
            if t.present {
                present = present + 1;
            }
            match t.decode {
                Some(d) => count_decode(&mut standard, &mut sound, &mut stray, &mut illegal, d),
                None => {},
            }
            i = i + 1;
        }
        assert(tracks@.take(i as int) =~= tracks@);
        TrackTable {
            declared: tracks.len(),
            sectors,
            raw_mfm,
            empty,
            present,
            faults,
            standard_tracks: standard,
            sound_sectors: sound,
            stray_syncs: stray,
            illegally_encoded_sectors: illegal,
        }
    }
}

/// One track of a flux capture as its table shows it: whether it stores any
/// revolution, and where the first one's timings could be read, whether the
/// bit-cell estimate settled and what the bits decoded to.
#[derive(Debug, Clone, Copy)]
pub struct FluxTrackRead {
    /// Whether any revolution is stored.
    pub stored: bool,
    /// The first revolution, where its timings could be read: whether the
    /// bit-cell estimate settled, and the decode.
    pub first: Option<(bool, TrackDecode)>,
}

/// What a flux capture's table adds up to: the decode counts, and how many
/// tracks are empty, read, and unsettled.
pub struct FluxTally {
    /// The decode counts.
    pub decoded: Tally,
    /// Tracks storing no revolution.
    pub empty: nat,
    /// Tracks whose first revolution was read.
    pub present: nat,
    /// Tracks whose bit-cell estimate never settled.
    pub unlocked: nat,
}

/// What a flux capture's table adds up to. A track storing nothing is
/// empty; one whose timings cannot be read counts for nothing.
pub open spec fn flux_tally(ts: Seq<FluxTrackRead>) -> FluxTally
    decreases ts.len(),
{
    if ts.len() == 0 {
        FluxTally { decoded: no_tally(), empty: 0, present: 0, unlocked: 0 }
    } else {
        let before = flux_tally(ts.drop_last());
        let t = ts.last();
        if !t.stored {
            FluxTally { empty: before.empty + 1, ..before }
        } else {
            match t.first {
                None => before,
                Some((locked, d)) => FluxTally {
                    decoded: add_decode(before.decoded, d),
                    empty: before.empty,
                    present: before.present + 1,
                    unlocked: if locked { before.unlocked } else { before.unlocked + 1 },
                },
            }
        }
    }
}

/// The counts of a flux tally stay within the tracks it counted.
proof fn lemma_flux_tally_bounded(ts: Seq<FluxTrackRead>)
    ensures
        flux_tally(ts).empty + flux_tally(ts).present <= ts.len(),
        flux_tally(ts).unlocked <= flux_tally(ts).present,
    decreases ts.len(),
{
    if ts.len() > 0 {
        lemma_flux_tally_bounded(ts.drop_last());
    }
}

impl TrackTable {
    /// The track table of a flux capture, one revolution of each track
    /// decoded, and the header's declared track range `first` to `last`.
    ///
    /// One revolution, not all of them: this is the summary a reader sees
    /// before looking further, and the other revolutions exist for the
    /// sectors the first one missed.
    pub fn of_scp(tracks: &Vec<FluxTrackRead>, first: u8, last: u8) -> (t: TrackTable)
        ensures
            t.declared == tracks@.len(),
            t.sectors == 0,
            t.raw_mfm == tracks@.len(),
            t.empty == flux_tally(tracks@).empty,
            t.present == flux_tally(tracks@).present,
            t.faults@.map_values(|s: String| s@) == scp_faults(
                flux_tally(tracks@).unlocked as usize,
                first,
                last,
                tracks@.len() as usize,
            ),
            counts_are(
                flux_tally(tracks@).decoded,
                t.standard_tracks,
                t.sound_sectors,
                t.stray_syncs,
                t.illegally_encoded_sectors,
            ),
    {
        let mut standard: usize = 0;
        let mut sound: usize = 0;
        let mut stray: usize = 0;
        let mut illegal: usize = 0;
        let mut present: usize = 0;
        let mut empty: usize = 0;
        let mut unlocked: usize = 0;
        let mut i: usize = 0;
        while i < tracks.len()
            invariant
                i <= tracks@.len(),
                empty == flux_tally(tracks@.take(i as int)).empty,
                present == flux_tally(tracks@.take(i as int)).present,
                unlocked == flux_tally(tracks@.take(i as int)).unlocked,
                counts_are(flux_tally(tracks@.take(i as int)).decoded, standard, sound, stray, illegal),
            decreases tracks@.len() - i,
        {
            let t = tracks[i];
            proof {
                assert(tracks@.take(i + 1).drop_last() =~= tracks@.take(i as int));
                lemma_flux_tally_bounded(tracks@.take(i as int));
            }
            if !t.stored {
                empty = empty + 1;
            } else {
                match t.first {
                    None => {},
                    Some((locked, d)) => {
                        present = present + 1;
                        if !locked {
                            unlocked = unlocked + 1;
                        }
                        count_decode(&mut standard, &mut sound, &mut stray, &mut illegal, d);
                    },
                }
            }
            i = i + 1;
        }
        assert(tracks@.take(i as int) =~= tracks@);
        let faults = scp_table_faults(unlocked, first, last, tracks.len());
        TrackTable {
            declared: tracks.len(),
            sectors: 0,
            raw_mfm: tracks.len(),
            empty,
            present,
            faults,
            standard_tracks: standard,
            sound_sectors: sound,
            stray_syncs: stray,
            illegally_encoded_sectors: illegal,
        }
    }
}


/// A run of printable text found in boot code: descriptive, never a verdict.
#[derive(Debug, Clone)]
pub struct BootText {
    /// Where in the bootblock it starts.
    pub offset: usize,
    /// The text.
    pub text: String,
}


/// What the container appears to be, and the evidence for it.
#[derive(Debug, Clone)]
pub struct Detection {
    /// The container.
    pub kind: Kind,
    /// How the container is named to people.
    pub label: String,
    /// Whether this container begins with a bootblock at block 0: only a
    /// raw block image does.
    pub has_bootblock: bool,
    /// The evidence, one sentence each.
    pub evidence: Vec<String>,
}

/// A compressed wrapper found around an image: reported rather than hidden.
#[derive(Debug, Clone)]
pub struct Compression {
    /// How the wrapper is named to people.
    pub label: String,
    /// Bytes as stored.
    pub compressed_size: u64,
    /// Bytes after decompression, where it succeeded.
    pub decompressed_size: Option<u64>,
    /// Why it could not be decompressed, where it could not.
    pub error: Option<String>,
}

/// A dostype, as the bootblock states it.
#[derive(Debug, Clone)]
pub struct DostypeInfo {
    /// The four bytes, as one number.
    pub raw: u32,
    /// Its flags byte.
    pub flags: u8,
    /// How it reads: `DOS\1` and the like.
    pub label: String,
    /// Whether the filesystem is FFS rather than OFS.
    pub ffs: bool,
    /// Whether names compare internationally.
    pub international: bool,
    /// Whether directories carry a cache.
    pub dircache: bool,
    /// Flag bits no documented dostype uses.
    pub unrecognised_flags: u8,
}

/// What a bootblock says.
#[derive(Debug)]
pub struct BootblockInfo {
    /// Its first four bytes, printable ones as themselves.
    pub prefix: String,
    /// Whether it begins `DOS`.
    pub is_dos: bool,
    /// Its dostype, or why it has none.
    pub dostype: Result<DostypeInfo, String>,
    /// Whether its checksum verifies.
    pub checksum_valid: bool,
    /// The checksum it stores.
    pub stored_checksum: u32,
    /// Whether it carries boot code. Never executed.
    pub has_boot_code: bool,
    /// The rootblock it claims. Not used: the rootblock is computed.
    pub stored_rootblock: u32,
}

/// A mounted-enough volume: what the rootblock says about itself.
#[derive(Debug, Clone)]
pub struct VolumeInfo {
    /// Where the rootblock was found: computed, not read.
    pub rootblock_at: u64,
    /// The volume's name, as stored.
    pub name: Vec<u8>,
    /// Slots in the rootblock's hash table.
    pub hash_table_size: u32,
    /// When the volume was created, as it reads.
    pub created: String,
    /// When the volume was last altered, as it reads.
    pub modified: String,
    /// When the root directory was last altered, as it reads.
    pub root_altered: String,
    /// What the rootblock says about its own soundness.
    pub facts: RootFacts,
}

/// Everything an inspection could determine.
#[derive(Debug)]
pub struct Inspection {
    /// What the container appears to be, and the evidence for it.
    pub detection: Detection,
    /// Total bytes in the image.
    pub size: u64,
    /// The geometry used, where one could be established.
    pub geometry: Option<Geometry>,
    /// The bootblock, where the image was long enough to hold one.
    pub bootblock: Option<BootblockInfo>,
    /// The volume, if a rootblock was found where one should be.
    pub volume: Option<VolumeInfo>,
    /// Why no volume was found, when none was.
    pub volume_absent: Option<String>,
    /// The track table, where the container carries raw tracks.
    pub tracks: Option<TrackTable>,
    /// How the flux was captured, where the container is a flux image.
    pub flux: Option<FluxCapture>,
    /// How a raw-track container was reconstructed into the volume above.
    pub assembly: Option<AssemblyInfo>,
    /// The disk's own description of itself.
    pub description: Option<Description>,
    /// Printable text found in the boot code. Descriptive, never a verdict.
    pub boot_text: Vec<BootText>,
    /// The compressed wrapper this image came out of, if any.
    pub compression: Option<Compression>,
    /// The Rigid Disk Block, where the device has one.
    pub rdb: Option<RdbInfo>,
    /// The partitions the device declares.
    pub partitions: Vec<PartitionInfo>,
    /// Faults found walking the partition chain.
    pub partition_faults: Vec<String>,
}

/// Whether an inspection's numbers fit the words they are reported in.
pub open spec fn reportable(i: Inspection) -> bool {
    match i.geometry {
        Some(g) => blocks_of(g) <= u64::MAX,
        None => true,
    }
}

/// The undocumented dostype bits an inspection's bootblock carries.
pub open spec fn unknown_bits(i: Inspection) -> Option<u8> {
    match i.bootblock {
        Some(bb) => match bb.dostype {
            Ok(d) => Some(d.unrecognised_flags),
            Err(_) => None,
        },
        None => None,
    }
}

/// The rootblock facts of an inspection's volume.
pub open spec fn root_facts(i: Inspection) -> Option<RootFacts> {
    match i.volume {
        Some(v) => Some(v.facts),
        None => None,
    }
}

impl Inspection {
    /// The inspection of a container that was identified but holds no volume
    /// that can be read as blocks: everything known about it, and why there
    /// is no volume.
    ///
    /// Not a failure: a raw-track container genuinely has no volume, and
    /// saying so precisely beats calling the whole format unimplemented.
    pub fn unreadable_container(
        detection: Detection,
        size: u64,
        bootblock: Option<BootblockInfo>,
        tracks: Option<TrackTable>,
        flux: Option<FluxCapture>,
        compression: Option<Compression>,
    ) -> (i: Inspection)
        ensures
            i.volume_absent matches Some(r) && r@ == unreadable_reason(detection.kind, detection.label@, tracks),
            i.detection == detection,
            i.size == size,
            i.bootblock == bootblock,
            i.tracks == tracks,
            i.flux == flux,
            i.compression == compression,
            i.geometry is None && i.volume is None && i.assembly is None && i.description is None,
            i.rdb is None,
            i.boot_text@.len() == 0 && i.partitions@.len() == 0 && i.partition_faults@.len() == 0,
    {
        let reason = unreadable(detection.kind, detection.label.as_str(), &tracks);
        Inspection {
            detection,
            size,
            geometry: None,
            bootblock,
            volume: None,
            volume_absent: Some(reason),
            tracks,
            flux,
            assembly: None,
            description: None,
            boot_text: Vec::new(),
            compression,
            rdb: None,
            partitions: Vec::new(),
            partition_faults: Vec::new(),
        }
    }
}

/// Why a block that should hold the rootblock does not: its block type and
/// secondary type, in hexadecimal as they read.
pub open spec fn no_rootblock_message(at: u64, block_type: u32, secondary_type: u32) -> Seq<char> {
    "no rootblock at block "@ + decimal(at as nat) + ": type 0x"@ + hex(block_type as nat) + ", secondary type 0x"@
        + hex(secondary_type as nat)
}

/// The reason a volume is absent when the computed rootblock block holds
/// something else. The rootblock's place is computed from the geometry, never
/// read; a secondary type is given as its 32 bits.
pub fn no_rootblock(at: u64, block_type: u32, secondary_type: u32) -> (r: String)
    ensures
        r@ == no_rootblock_message(at, block_type, secondary_type),
{
    let mut r = String::new();
    push_str(&mut r, "no rootblock at block ");
    push_decimal(&mut r, at);
    push_str(&mut r, ": type 0x");
    push_hex(&mut r, block_type);
    push_str(&mut r, ", secondary type 0x");
    push_hex(&mut r, secondary_type);
    r
}

/// The reason a volume is absent when the rootblock's block could not be
/// read (`parse` false) or not parsed (`parse` true), with the reader's
/// own words.
pub open spec fn root_failure_message(at: u64, parse: bool, error: Seq<char>) -> Seq<char> {
    (if parse { "cannot parse block "@ } else { "cannot read block "@ }) + decimal(at as nat) + ": "@ + error
}

/// The reason a volume is absent when its rootblock could not be read or
/// parsed.
pub fn root_failure(at: u64, parse: bool, error: &str) -> (r: String)
    ensures
        r@ == root_failure_message(at, parse, error@),
{
    let mut r = String::new();
    if parse {
        push_str(&mut r, "cannot parse block ");
    } else {
        push_str(&mut r, "cannot read block ");
    }
    push_decimal(&mut r, at);
    push_str(&mut r, ": ");
    push_str(&mut r, error);
    r
}

/// The container and length a geometry is taken from: the reconstructed
/// image's where a raw-track container was reassembled, the file's own
/// otherwise.
pub open spec fn mounted_as(detection: Detection, size: u64, assembly: Option<(AssemblyInfo, Kind, u64)>) -> (
    Kind,
    u64,
) {
    match assembly {
        Some((_, kind, len)) => (kind, len),
        None => (detection.kind, size),
    }
}

/// Why an image too short for its geometry has no volume.
pub open spec fn too_short() -> Seq<char> {
    "image is shorter than its geometry"@
}

/// Put an inspection together from what reading the image found.
///
/// The bootblock and its text are kept only where the container begins with
/// one; how a flux capture was made only for a flux capture. The geometry is
/// taken from the reassembled image where there is one. Without a geometry
/// the image is an unreadable container; an image shorter than its geometry
/// has no volume and nothing read from it; otherwise the volume, or why there
/// is none, the description, and the partition table are reported. A device
/// with no Rigid Disk Block has no partitions and no partition faults, and
/// one with a Rigid Disk Block has no bootblock.
pub fn inspection_of(
    detection: Detection,
    size: u64,
    compression: Option<Compression>,
    bootblock: Option<BootblockInfo>,
    boot_text: Vec<BootText>,
    tracks: Option<TrackTable>,
    flux: Option<FluxCapture>,
    assembly: Option<(AssemblyInfo, Kind, u64)>,
    image_short: bool,
    volume: Result<VolumeInfo, String>,
    description: Option<Description>,
    rdb: Option<RdbInfo>,
    partitions: Vec<PartitionInfo>,
    partition_faults: Vec<String>,
) -> (i: Inspection)
    ensures
        i.geometry == geometry_of(mounted_as(detection, size, assembly).0, mounted_as(detection, size, assembly).1),
        i.detection == detection,
        i.size == size,
        i.compression == compression,
        i.bootblock is Some ==> detection.has_bootblock && bootblock is Some && i.bootblock == bootblock,
        detection.has_bootblock && bootblock is Some && i.rdb is None ==> i.bootblock == bootblock,
        i.flux is Some ==> detection.kind is Scp && i.flux == flux,
        i.volume is Some <==> i.volume_absent is None,
        i.partitions@.len() > 0 ==> i.rdb is Some,
        i.rdb is Some ==> i.bootblock is None,
        i.geometry is None ==> i.volume is None,
        i.partition_faults@.len() > 0 ==> i.rdb is Some,
        i.geometry is None ==> {
            &&& i.volume_absent matches Some(r) && r@ == unreadable_reason(detection.kind, detection.label@, tracks)
            &&& i.tracks == tracks
            &&& i.flux == (if detection.kind is Scp { flux } else { None })
            &&& i.volume is None && i.assembly is None && i.description is None && i.rdb is None
            &&& i.boot_text@.len() == 0 && i.partitions@.len() == 0 && i.partition_faults@.len() == 0
        },
        i.geometry is Some && image_short ==> {
            &&& i.volume_absent matches Some(r) && r@ == too_short()
            &&& i.volume is None && i.tracks is None && i.flux is None && i.assembly is None
            &&& i.description is None && i.rdb is None
            &&& i.boot_text@.len() == 0 && i.partitions@.len() == 0 && i.partition_faults@.len() == 0
        },
        i.geometry is Some && !image_short ==> {
            &&& match volume {
                Ok(v) => i.volume == Some(v) && i.volume_absent is None,
                Err(why) => i.volume is None && i.volume_absent == Some(why),
            }
            &&& i.tracks == tracks
            &&& i.flux == (if detection.kind is Scp { flux } else { None })
            &&& i.assembly == (match assembly {
                Some((info, _, _)) => Some(info),
                None => None,
            })
            &&& i.description == description
            &&& i.boot_text@ == (if detection.has_bootblock { boot_text@ } else { Seq::empty() })
            &&& i.rdb == rdb
            &&& i.partitions@ == (if rdb is Some { partitions@ } else { Seq::empty() })
            &&& i.partition_faults@ == (if rdb is Some { partition_faults@ } else { Seq::empty() })
        },
{
    let has_bootblock = detection.has_bootblock;
    let bootblock = if has_bootblock { bootblock } else { None };
    let boot_text = if has_bootblock { boot_text } else { Vec::new() };
    let flux = match detection.kind {
        Kind::Scp => flux,
        _ => None,
    };
    let (kind, len, assembly) = match assembly {
        Some((info, kind, len)) => (kind, len, Some(info)),
        None => (detection.kind, size, None),
    };
    let geometry = match geometry_for(kind, len) {
        Some(g) => g,
        None => {
            return Inspection::unreadable_container(detection, size, bootblock, tracks, flux, compression);
        },
    };
    if image_short {
        return Inspection {
            detection,
            size,
            geometry: Some(geometry),
            bootblock,
            volume: None,
            volume_absent: Some("image is shorter than its geometry".to_owned()),
            tracks: None,
            flux: None,
            assembly: None,
            description: None,
            boot_text: Vec::new(),
            compression,
            rdb: None,
            partitions: Vec::new(),
            partition_faults: Vec::new(),
        };
    }
    let (volume, volume_absent) = match volume {
        Ok(v) => (Some(v), None),
        Err(why) => (None, Some(why)),
    };
    let (bootblock, partitions, partition_faults) = match &rdb {
        Some(_) => (None, partitions, partition_faults),
        None => (bootblock, Vec::new(), Vec::new()),
    };
    Inspection {
        detection,
        size,
        geometry: Some(geometry),
        bootblock,
        volume,
        volume_absent,
        tracks,
        flux,
        assembly,
        description,
        boot_text,
        compression,
        rdb,
        partitions,
        partition_faults,
    }
}

impl Inspection {
    /// Everything wrong with this image.
    pub fn faults(&self) -> (r: Vec<Fault>)
        ensures
            r@.map_values(|f: Fault| fault_view(f)) == faults_of(unknown_bits(*self), root_facts(*self)),
    {
        let bits = match &self.bootblock {
            Some(bb) => match &bb.dostype {
                Ok(d) => Some(d.unrecognised_flags),
                Err(_) => None,
            },
            None => None,
        };
        let volume = match &self.volume {
            Some(v) => Some(&v.facts),
            None => None,
        };
        faults(bits, volume)
    }
}


/// The model of a dostype as JSON.
pub open spec fn dostype_json(d: DostypeInfo) -> JsonView {
    JsonView::Obj(
        seq![
            ("raw"@, JsonView::Num(d.raw as nat)),
            ("flags"@, JsonView::Num(d.flags as nat)),
            ("label"@, JsonView::Str(d.label@)),
            ("filesystem"@, JsonView::Str(if d.ffs { "ffs"@ } else { "ofs"@ })),
            ("international"@, JsonView::Bool(d.international)),
            ("dircache"@, JsonView::Bool(d.dircache)),
            ("unrecognised_flags"@, JsonView::Num(d.unrecognised_flags as nat)),
        ],
    )
}

/// The model of a bootblock as JSON.
pub open spec fn bootblock_json(b: BootblockInfo) -> JsonView {
    JsonView::Obj(
        seq![
            ("prefix"@, JsonView::Str(b.prefix@)),
            ("is_dos"@, JsonView::Bool(b.is_dos)),
            ("dostype"@, match b.dostype {
                Ok(d) => dostype_json(d),
                Err(_) => JsonView::Null,
            }),
            ("checksum_valid"@, JsonView::Bool(b.checksum_valid)),
            ("has_boot_code"@, JsonView::Bool(b.has_boot_code)),
            ("stored_rootblock"@, JsonView::Num(b.stored_rootblock as nat)),
        ],
    )
}

/// The model of a volume as JSON.
pub open spec fn volume_json(v: VolumeInfo) -> JsonView {
    JsonView::Obj(
        seq![
            ("name"@, JsonView::Str(latin1_chars(v.name@))),
            ("rootblock"@, JsonView::Num(v.rootblock_at as nat)),
            ("checksum_valid"@, JsonView::Bool(v.facts.checksum_valid)),
            ("bitmap_flag_valid"@, JsonView::Bool(v.facts.bitmap_flag_valid)),
            ("hash_table_size"@, JsonView::Num(v.hash_table_size as nat)),
            ("created"@, JsonView::Str(v.created@)),
            ("modified"@, JsonView::Str(v.modified@)),
            ("root_altered"@, JsonView::Str(v.root_altered@)),
        ],
    )
}

/// The model of a compressed wrapper as JSON.
pub open spec fn compression_json(c: Compression) -> JsonView {
    JsonView::Obj(
        seq![
            ("kind"@, JsonView::Str(c.label@)),
            ("compressed_size"@, JsonView::Num(c.compressed_size as nat)),
            ("decompressed_size"@, match c.decompressed_size {
                Some(n) => JsonView::Num(n as nat),
                None => JsonView::Null,
            }),
            ("error"@, opt_str(c.error)),
        ],
    )
}

/// The model of a geometry as JSON.
pub open spec fn geometry_json(g: Geometry) -> JsonView {
    JsonView::Obj(
        seq![
            ("cylinders"@, JsonView::Num(g.cylinders as nat)),
            ("heads"@, JsonView::Num(g.heads as nat)),
            ("sectors"@, JsonView::Num(g.sectors as nat)),
            ("block_size"@, JsonView::Num(g.block_size as nat)),
            ("total_blocks"@, JsonView::Num(blocks_of(g))),
        ],
    )
}

/// The model of one run of boot text as JSON.
pub open spec fn boot_text_json(t: BootText) -> JsonView {
    JsonView::Obj(seq![("offset"@, JsonView::Num(t.offset as nat)), ("text"@, JsonView::Str(t.text@))])
}

/// The model of an optional part as JSON.
pub open spec fn opt_json<T>(x: Option<T>, f: spec_fn(T) -> JsonView) -> JsonView {
    match x {
        Some(v) => f(v),
        None => JsonView::Null,
    }
}

/// The model of a whole inspection as JSON.
pub open spec fn inspection_json(i: Inspection) -> JsonView {
    JsonView::Obj(
        seq![
            ("container"@, JsonView::Str(i.detection.label@)),
            ("size"@, JsonView::Num(i.size as nat)),
            ("evidence"@, strs(i.detection.evidence@)),
            ("compression"@, opt_json(i.compression, |c: Compression| compression_json(c))),
            ("geometry"@, opt_json(i.geometry, |g: Geometry| geometry_json(g))),
            ("bootblock"@, opt_json(i.bootblock, |b: BootblockInfo| bootblock_json(b))),
            ("tracks"@, opt_json(i.tracks, |t: TrackTable| track_table_json(t))),
            ("flux"@, opt_json(i.flux, |c: FluxCapture| flux_json(c))),
            ("assembly"@, opt_json(i.assembly, |a: AssemblyInfo| assembly_json(a))),
            ("description"@, opt_json(i.description, |d: Description| description_json(d))),
            ("boot_text"@, JsonView::Arr(i.boot_text@.map_values(|t: BootText| boot_text_json(t)))),
            ("volume"@, opt_json(i.volume, |v: VolumeInfo| volume_json(v))),
            ("volume_absent"@, opt_str(i.volume_absent)),
            ("rdb"@, opt_json(i.rdb, |r: RdbInfo| rdb_json(r))),
            ("partitions"@, JsonView::Arr(i.partitions@.map_values(|p: PartitionInfo| partition_json(p)))),
            ("partition_faults"@, strs(i.partition_faults@)),
            ("faults"@, JsonView::Arr(
                faults_of(unknown_bits(i), root_facts(i)).map_values(
                    |f: (Seq<char>, Seq<char>)|
                        JsonView::Obj(seq![("code"@, JsonView::Str(f.0)), ("message"@, JsonView::Str(f.1))]),
                ),
            )),
        ],
    )
}

/// A bootblock as JSON.
fn bootblock_to_json(b: &BootblockInfo) -> (v: Value)
    ensures
        v@ == bootblock_json(*b),
{
    let dostype = match &b.dostype {
        Ok(d) => {
            let fields = vec![
                ("raw", Value::Num(d.raw as u64)),
                ("flags", Value::Num(d.flags as u64)),
                ("label", Value::str(d.label.as_str())),
                ("filesystem", Value::str(if d.ffs { "ffs" } else { "ofs" })),
                ("international", Value::Bool(d.international)),
                ("dircache", Value::Bool(d.dircache)),
                ("unrecognised_flags", Value::Num(d.unrecognised_flags as u64)),
            ];
            proof {
                lemma_fields_view(fields@);
                assert(fields_view(fields@) =~= dostype_json(*d)->Obj_0);
            }
            Value::Obj(fields)
        },
        Err(_) => Value::Null,
    };
    let fields = vec![
        ("prefix", Value::str(b.prefix.as_str())),
        ("is_dos", Value::Bool(b.is_dos)),
        ("dostype", dostype),
        ("checksum_valid", Value::Bool(b.checksum_valid)),
        ("has_boot_code", Value::Bool(b.has_boot_code)),
        ("stored_rootblock", Value::Num(b.stored_rootblock as u64)),
    ];
    proof {
        lemma_fields_view(fields@);
        assert(fields_view(fields@) =~= bootblock_json(*b)->Obj_0);
    }
    Value::Obj(fields)
}

/// A volume as JSON.
fn volume_to_json(v: &VolumeInfo) -> (r: Value)
    ensures
        r@ == volume_json(*v),
{
    let fields = vec![
        ("name", Value::latin1(v.name.as_slice())),
        ("rootblock", Value::Num(v.rootblock_at)),
        ("checksum_valid", Value::Bool(v.facts.checksum_valid)),
        ("bitmap_flag_valid", Value::Bool(v.facts.bitmap_flag_valid)),
        ("hash_table_size", Value::Num(v.hash_table_size as u64)),
        ("created", Value::str(v.created.as_str())),
        ("modified", Value::str(v.modified.as_str())),
        ("root_altered", Value::str(v.root_altered.as_str())),
    ];
    proof {
        lemma_fields_view(fields@);
        assert(fields_view(fields@) =~= volume_json(*v)->Obj_0);
    }
    Value::Obj(fields)
}

/// A compressed wrapper as JSON.
fn compression_to_json(c: &Compression) -> (v: Value)
    ensures
        v@ == compression_json(*c),
{
    let fields = vec![
        ("kind", Value::str(c.label.as_str())),
        ("compressed_size", Value::Num(c.compressed_size)),
        ("decompressed_size", match c.decompressed_size {
            Some(n) => Value::Num(n),
            None => Value::Null,
        }),
        ("error", opt_str_json(&c.error)),
    ];
    proof {
        lemma_fields_view(fields@);
        assert(fields_view(fields@) =~= compression_json(*c)->Obj_0);
    }
    Value::Obj(fields)
}

/// A geometry as JSON.
fn geometry_to_json(g: &Geometry) -> (v: Value)
    requires
        blocks_of(*g) <= u64::MAX,
    ensures
        v@ == geometry_json(*g),
{
    let fields = vec![
        ("cylinders", Value::Num(g.cylinders as u64)),
        ("heads", Value::Num(g.heads as u64)),
        ("sectors", Value::Num(g.sectors as u64)),
        ("block_size", Value::Num(g.block_size as u64)),
        ("total_blocks", Value::Num(g.total_blocks())),
    ];
    proof {
        lemma_fields_view(fields@);
        assert(fields_view(fields@) =~= geometry_json(*g)->Obj_0);
    }
    Value::Obj(fields)
}

/// Boot text as JSON.
fn boot_texts_json(ts: &Vec<BootText>) -> (v: Value)
    ensures
        v@ == JsonView::Arr(ts@.map_values(|t: BootText| boot_text_json(t))),
{
    let mut items: Vec<Value> = Vec::new();
    let mut i: usize = 0;
    while i < ts.len()
        invariant
            i <= ts@.len(),
            items_view(items@) == ts@.take(i as int).map_values(|t: BootText| boot_text_json(t)),
        decreases ts@.len() - i,
    {
        let ghost before = items@;
        let fields = vec![("offset", Value::Num(ts[i].offset as u64)), ("text", Value::str(ts[i].text.as_str()))];
        proof {
            lemma_fields_view(fields@);
            assert(fields_view(fields@) =~= boot_text_json(ts@[i as int])->Obj_0);
        }
        let item = Value::Obj(fields);
        assert(item@ == boot_text_json(ts@[i as int]));
        items.push(item);
        assert(items@.drop_last() =~= before);
        i = i + 1;
        assert(items_view(items@) =~= ts@.take(i as int).map_values(|t: BootText| boot_text_json(t)));
    }
    assert(ts@.take(i as int) =~= ts@);
    Value::Arr(items)
}

/// Partitions as JSON.
fn partitions_json(ps: &Vec<PartitionInfo>) -> (v: Value)
    ensures
        v@ == JsonView::Arr(ps@.map_values(|p: PartitionInfo| partition_json(p))),
{
    let mut items: Vec<Value> = Vec::new();
    let mut i: usize = 0;
    while i < ps.len()
        invariant
            i <= ps@.len(),
            items_view(items@) == ps@.take(i as int).map_values(|p: PartitionInfo| partition_json(p)),
        decreases ps@.len() - i,
    {
        let ghost before = items@;
        items.push(ps[i].to_json());
        assert(items@.drop_last() =~= before);
        i = i + 1;
        assert(items_view(items@) =~= ps@.take(i as int).map_values(|p: PartitionInfo| partition_json(p)));
    }
    assert(ps@.take(i as int) =~= ps@);
    Value::Arr(items)
}

impl Inspection {
    /// The whole inspection as JSON.
    pub fn to_json(&self) -> (v: Value)
        requires
            reportable(*self),
        ensures
            v@ == inspection_json(*self),
    {
        let compression = match &self.compression {
            Some(c) => compression_to_json(c),
            None => Value::Null,
        };
        let geometry = match &self.geometry {
            Some(g) => geometry_to_json(g),
            None => Value::Null,
        };
        let bootblock = match &self.bootblock {
            Some(b) => bootblock_to_json(b),
            None => Value::Null,
        };
        let tracks = match &self.tracks {
            Some(t) => t.to_json(),
            None => Value::Null,
        };
        let flux = match &self.flux {
            Some(c) => c.to_json(),
            None => Value::Null,
        };
        let assembly = match &self.assembly {
            Some(a) => a.to_json(),
            None => Value::Null,
        };
        let description = match &self.description {
            Some(d) => d.to_json(),
            None => Value::Null,
        };
        let volume = match &self.volume {
            Some(v) => volume_to_json(v),
            None => Value::Null,
        };
        let rdb = match &self.rdb {
            Some(r) => r.to_json(),
            None => Value::Null,
        };
        let fs = self.faults();
        let faults = faults_to_json(&fs);
        proof {
            assert(fs@.map_values(|f: Fault| fault_json(f)) =~= faults_of(unknown_bits(*self), root_facts(*self)).map_values(
                |f: (Seq<char>, Seq<char>)|
                    JsonView::Obj(seq![("code"@, JsonView::Str(f.0)), ("message"@, JsonView::Str(f.1))]),
            )) by {
                assert(fs@.map_values(|f: Fault| fault_view(f)).len() == fs@.len());
            }
        }
        let fields = vec![
            ("container", Value::str(self.detection.label.as_str())),
            ("size", Value::Num(self.size)),
            ("evidence", str_array(&self.detection.evidence)),
            ("compression", compression),
            ("geometry", geometry),
            ("bootblock", bootblock),
            ("tracks", tracks),
            ("flux", flux),
            ("assembly", assembly),
            ("description", description),
            ("boot_text", boot_texts_json(&self.boot_text)),
            ("volume", volume),
            ("volume_absent", opt_str_json(&self.volume_absent)),
            ("rdb", rdb),
            ("partitions", partitions_json(&self.partitions)),
            ("partition_faults", str_array(&self.partition_faults)),
            ("faults", faults),
        ];
        proof {
            lemma_fields_view(fields@);
            assert(fields_view(fields@) =~= inspection_json(*self)->Obj_0);
        }
        Value::Obj(fields)
    }
}


/// A part of a whole is at most a hundred percent of it.
pub proof fn lemma_percent_bounded(part: nat, whole: nat)
    requires
        part <= whole,
    ensures
        percent(part, whole) <= 100,
        part == whole && whole > 0 && whole * 100 <= usize::MAX ==> percent(part, whole) == 100,
{
    if whole > 0 {
        if part * 100 > usize::MAX {
            assert((usize::MAX as nat) / whole <= 100) by (nonlinear_arith)
                requires
                    part * 100 > usize::MAX,
                    part <= whole,
                    whole > 0,
            ;
        } else {
            assert((part * 100) / whole <= 100) by (nonlinear_arith)
                requires
                    part <= whole,
                    whole > 0,
            ;
            if part == whole {
                assert((whole * 100) / whole == 100) by (nonlinear_arith)
                    requires
                        whole > 0,
                ;
            }
        }
    }
}

} // verus!

verus! {

/// A directory entry, as a listing reports it.
#[derive(Debug, Clone)]
pub struct EntryFacts {
    /// Its name, exactly as stored: Latin-1 bytes.
    pub name: Vec<u8>,
    /// Its path from the volume root, one name per component.
    pub path: Vec<Vec<u8>>,
    /// What it is, as it reads.
    pub kind: String,
    /// Whether it is a file, the only kind that has a size.
    pub is_file: bool,
    /// Its size in bytes, as the header claims.
    pub size: u32,
    /// The block its header occupies.
    pub block: u32,
    /// The block of its parent directory.
    pub parent: u32,
    /// Its protection bits, as AmigaDOS writes them.
    pub protection: String,
    /// Its protection bits, as stored.
    pub protection_bits: u32,
    /// When it was last altered, as it reads.
    pub altered: String,
    /// Its comment, as stored; empty for none.
    pub comment: Vec<u8>,
    /// Whether its header's checksum verifies.
    pub checksum_valid: bool,
}

/// Path components joined with `/`.
pub open spec fn joined_path(ps: Seq<Vec<u8>>) -> Seq<u8>
    decreases ps.len(),
{
    if ps.len() == 0 {
        Seq::empty()
    } else if ps.len() == 1 {
        ps[0]@
    } else {
        joined_path(ps.drop_last()) + seq![0x2Fu8] + ps.last()@
    }
}

/// The model of a directory entry as JSON: its name and path as Latin-1, a
/// size only for a file, and no comment rather than an empty one.
pub open spec fn entry_json(e: EntryFacts) -> JsonView {
    JsonView::Obj(
        seq![
            ("name"@, JsonView::Str(latin1_chars(e.name@))),
            ("path"@, JsonView::Str(latin1_chars(joined_path(e.path@)))),
            ("kind"@, JsonView::Str(e.kind@)),
            ("size"@, if e.is_file {
                JsonView::Num(e.size as nat)
            } else {
                JsonView::Null
            }),
            ("block"@, JsonView::Num(e.block as nat)),
            ("parent"@, JsonView::Num(e.parent as nat)),
            ("protection"@, JsonView::Str(e.protection@)),
            ("protection_bits"@, JsonView::Num(e.protection_bits as nat)),
            ("altered"@, JsonView::Str(e.altered@)),
            ("comment"@, if e.comment@.len() == 0 {
                JsonView::Null
            } else {
                JsonView::Str(latin1_chars(e.comment@))
            }),
            ("checksum_valid"@, JsonView::Bool(e.checksum_valid)),
        ],
    )
}

/// Path components joined with `/`.
fn join_path(ps: &Vec<Vec<u8>>) -> (r: Vec<u8>)
    ensures
        r@ == joined_path(ps@),
{
    let mut out: Vec<u8> = Vec::new();
    let mut i: usize = 0;
    while i < ps.len()
        invariant
            i <= ps@.len(),
            out@ == joined_path(ps@.take(i as int)),
        decreases ps@.len() - i,
    {
        let ghost before = out@;
        if i > 0 {
            out.push(0x2Fu8);
        }
        let part = &ps[i];
        let mut k: usize = 0;
        while k < part.len()
            invariant
                k <= part@.len(),
                out@ == before + (if i > 0 { seq![0x2Fu8] } else { Seq::empty() }) + part@.take(k as int),
            decreases part@.len() - k,
        {
            out.push(part[k]);
            k = k + 1;
            proof {
                assert(part@.take(k as int) =~= part@.take(k - 1).push(part@[k - 1]));
            }
        }
        proof {
            assert(part@.take(k as int) =~= part@);
            assert(ps@.take(i + 1).drop_last() =~= ps@.take(i as int));
            if i == 0 {
                assert(ps@.take(1) =~= seq![ps@[0]]);
                assert(out@ =~= ps@[0]@);
            } else {
                assert(out@ =~= joined_path(ps@.take(i as int)) + seq![0x2Fu8] + ps@.take(i + 1).last()@);
            }
        }
        i = i + 1;
    }
    assert(ps@.take(i as int) =~= ps@);
    out
}

/// A directory entry as JSON, one object per entry, so a large directory
/// can be streamed a line at a time.
pub fn entry_to_json(e: &EntryFacts) -> (v: Value)
    ensures
        v@ == entry_json(*e),
{
    let path = join_path(&e.path);
    let size = if e.is_file {
        Value::Num(e.size as u64)
    } else {
        Value::Null
    };
    let comment = if e.comment.len() == 0 {
        Value::Null
    } else {
        Value::latin1(e.comment.as_slice())
    };
    let fields = vec![
        ("name", Value::latin1(e.name.as_slice())),
        ("path", Value::latin1(path.as_slice())),
        ("kind", Value::str(e.kind.as_str())),
        ("size", size),
        ("block", Value::Num(e.block as u64)),
        ("parent", Value::Num(e.parent as u64)),
        ("protection", Value::str(e.protection.as_str())),
        ("protection_bits", Value::Num(e.protection_bits as u64)),
        ("altered", Value::str(e.altered.as_str())),
        ("comment", comment),
        ("checksum_valid", Value::Bool(e.checksum_valid)),
    ];
    proof {
        lemma_fields_view(fields@);
        assert(fields_view(fields@) =~= entry_json(*e)->Obj_0);
    }
    Value::Obj(fields)
}

/// A floppy is mounted with the shape it was detected with: its own
/// cylinders and sectors per track, two heads, 512-byte blocks; so the
/// geometry covers every byte of an image of exactly that shape, a
/// high-density disk included.
pub proof fn floppy_geometry_is_the_detected_shape(cylinders: u32, sectors: u32, size: u64)
    ensures
        geometry_of(Kind::Adf { cylinders, sectors }, size) is Some,
        ({
            let g = geometry_of(Kind::Adf { cylinders, sectors }, size)->0;
            &&& g.cylinders == cylinders
            &&& g.sectors == sectors
            &&& g.heads == 2
            &&& g.block_size == 512
            &&& size == cylinders * 2 * sectors * 512 ==> blocks_of(g) * 512 == size
        }),
{
    let g = geometry_of(Kind::Adf { cylinders, sectors }, size)->0;
    assert(blocks_of(g) == cylinders * 2 * sectors);
}

/// A hard-disk image is mounted as one flat run of 512-byte blocks covering
/// every whole block of the file, when it holds at least a floppy's worth of
/// blocks and no more than can be numbered; otherwise it has no geometry.
pub proof fn flat_geometry_covers_every_block(size: u64, rdb: bool)
    ensures
        ({
            let kind = if rdb { Kind::RigidDisk } else { Kind::Hardfile };
            &&& geometry_of(kind, size) is Some <==> (64 <= size / 512 <= u32::MAX)
            &&& geometry_of(kind, size) matches Some(g) ==> g.block_size == 512 && blocks_of(g) == size / 512
        }),
{
    let kind = if rdb { Kind::RigidDisk } else { Kind::Hardfile };
    if let Some(g) = geometry_of(kind, size) {
        assert(blocks_of(g) == g.cylinders * 1 * 1);
    }
}

/// Only a sector image has a geometry: a compressed wrapper, a raw-track or
/// flux capture, an archive or an unrecognised file is never mounted as it
/// stands.
pub proof fn only_sector_images_have_a_geometry(kind: Kind, size: u64)
    requires
        !(kind is Adf || kind is Hardfile || kind is RigidDisk),
    ensures
        geometry_of(kind, size) is None,
{
}

} // verus!
