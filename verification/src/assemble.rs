//! Assembling a raw-track container into a filesystem view.
//!
//! An extended ADF or a flux capture holds tracks, not a volume, but most of
//! a protected disk is usually ordinary, and the ordinary part is a perfectly
//! good AmigaDOS volume. What comes out is a reconstruction, and is labelled
//! as one: sectors that could not be decoded are left as zeros, and
//! [`Assembly::sectors_placed`] says how much is real.
use vstd::prelude::*;

use crate::inspect::{percent, percent_of};

verus! {

/// Tracks in the standard double-density layout an assembly targets.
pub const DD_TRACKS: usize = 160;

/// Sectors on one double-density track.
pub const DD_SECTORS: usize = 11;

/// Bytes in one sector.
pub const SECTOR_BYTES: usize = 512;

/// Bytes in one ordinary double-density track.
pub const TRACK_BYTES: usize = 5632;

/// Sectors on a whole double-density disk.
pub const DD_TOTAL_SECTORS: usize = 1760;

/// Where a track's sectors came from.
#[derive(Debug, Clone, Copy, PartialEq, Eq, Structural)]
pub enum TrackSource {
    /// Stored already decoded, as ordinary sector data.
    Sectors,
    /// Decoded here, out of raw MFM.
    RawMfm,
    /// The container carried nothing for this track.
    Absent,
}

/// The name a track source is reported by.
pub open spec fn source_name(s: TrackSource) -> &'static str {
    match s {
        TrackSource::Sectors => "sectors",
        TrackSource::RawMfm => "raw MFM",
        TrackSource::Absent => "absent",
    }
}

impl TrackSource {
    /// The name this source is reported by; part of the JSON surface.
    pub fn name(self) -> (r: &'static str)
        ensures
            r == source_name(self),
    {
        match self {
            TrackSource::Sectors => "sectors",
            TrackSource::RawMfm => "raw MFM",
            TrackSource::Absent => "absent",
        }
    }
}

/// What was recovered from one track, and where it came from.
#[derive(Debug, Clone, Copy, PartialEq, Eq, Structural)]
pub struct TrackState {
    /// 0 to 159: cylinder times two, plus the head.
    pub index: usize,
    /// Sectors actually placed from this track.
    pub sectors: u8,
    /// Sectors a whole track holds: the denominator.
    pub expected: u8,
    /// How the track reached the image.
    pub source: TrackSource,
}

impl TrackState {
    /// The cylinder this track is on.
    pub fn cylinder(&self) -> (r: usize)
        ensures
            r == self.index / 2,
    {
        self.index / 2
    }

    /// Which side of it.
    pub fn head(&self) -> (r: usize)
        ensures
            r == self.index % 2,
    {
        self.index % 2
    }
}

/// What assembling a raw-track container produced.
#[derive(Debug, Clone)]
pub struct Assembly {
    /// The reconstructed image, standard double-density size.
    pub bytes: Vec<u8>,
    /// Sectors actually written. The rest are zeros.
    pub sectors_placed: usize,
    /// Sectors a full disk would hold: the denominator for the above.
    pub sectors_total: usize,
    /// Tracks contributed by ordinary sector tracks.
    pub from_sector_tracks: usize,
    /// Tracks contributed by decoding raw MFM.
    pub from_raw_tracks: usize,
    /// What happened on each of the disk's 160 tracks, in order.
    ///
    /// Always the full length, so a track the container never mentioned is
    /// present and empty rather than absent.
    pub tracks: Vec<TrackState>,
}

impl Assembly {
    /// Whether anything was recovered at all.
    pub fn is_empty(&self) -> (r: bool)
        ensures
            r == (self.sectors_placed == 0),
    {
        self.sectors_placed == 0
    }

    /// How complete the reconstruction is, as a whole percentage.
    ///
    /// Integer arithmetic: a completeness figure derived from sector counts
    /// has no business going through a float.
    pub fn percent_complete(&self) -> (r: usize)
        ensures
            r == percent(self.sectors_placed as nat, self.sectors_total as nat),
    {
        percent_of(self.sectors_placed, self.sectors_total)
    }
}

/// The state of a track nothing was recovered from.
pub open spec fn blank_state(index: int) -> TrackState {
    TrackState { index: index as usize, sectors: 0, expected: 11, source: TrackSource::Absent }
}

/// One state per track, all absent, so a track nothing mentioned is still a
/// row.
pub fn blank_tracks() -> (r: Vec<TrackState>)
    ensures
        r@ == Seq::new(160, |i: int| blank_state(i)),
{
    let mut out: Vec<TrackState> = Vec::new();
    let mut index: usize = 0;
    while index < DD_TRACKS
        invariant
            index <= 160,
            out@ == Seq::new(index as nat, |i: int| blank_state(i)),
        decreases 160 - index,
    {
        out.push(TrackState { index, sectors: 0, expected: 11, source: TrackSource::Absent });
        index = index + 1;
        assert(out@ =~= Seq::new(index as nat, |i: int| blank_state(i)));
    }
    out
}


/// A sector decoded out of raw MFM.
#[derive(Debug, Clone)]
pub struct DecodedSector {
    /// The sector number it claims within its track.
    pub number: u8,
    /// Whether both its checksums agree.
    pub sound: bool,
    /// Its data.
    pub data: Vec<u8>,
}

/// What a raw-track container holds for one track.
#[derive(Debug, Clone)]
pub enum TrackData {
    /// Ordinary sector data, stored already decoded.
    Sectors(Vec<u8>),
    /// Raw MFM, as the sectors it decoded to.
    RawMfm(Vec<DecodedSector>),
    /// A kind of track nothing can read.
    Unknown,
}

/// One track of a raw-track container: its physical position, and its data
/// where the file reaches it.
#[derive(Debug, Clone)]
pub struct TrackInput {
    /// Cylinder times two, plus the head.
    pub index: usize,
    /// What the track holds; `None` when the file does not reach its data.
    pub data: Option<TrackData>,
}

/// Addition that stops at the largest `usize`.
pub open spec fn sat(n: nat) -> nat {
    if n > usize::MAX {
        usize::MAX as nat
    } else {
        n
    }
}

/// `out` with `data` written over it from `at`.
pub open spec fn place(out: Seq<u8>, at: int, data: Seq<u8>) -> Seq<u8> {
    out.take(at) + data + out.skip(at + data.len())
}

/// How many of the marks are set.
pub open spec fn held(have: Seq<bool>) -> nat
    decreases have.len(),
{
    if have.len() == 0 {
        0
    } else {
        held(have.drop_last()) + if have.last() {
            1nat
        } else {
            0nat
        }
    }
}

/// One track's sector marks with nothing held yet.
pub open spec fn no_marks() -> Seq<bool> {
    Seq::new(11, |_k: int| false)
}

/// The marks of a sector track whose first `n` sectors are present.
pub open spec fn first_marks(n: int) -> Seq<bool> {
    Seq::new(11, |k: int| k < n)
}

/// The disk's sector slots after track `index` filled the sectors `marks`
/// holds: a slot once filled stays filled, however often it is written.
pub open spec fn merge_marks(filled: Seq<bool>, index: int, marks: Seq<bool>) -> Seq<bool> {
    Seq::new(
        filled.len(),
        |j: int| filled[j] || (index * 11 <= j < index * 11 + 11 && marks[j - index * 11]),
    )
}

/// What an assembly has recovered so far.
pub struct Recovery {
    /// The image as reconstructed.
    pub bytes: Seq<u8>,
    /// Which of the disk's 1760 sector slots hold real data: slot
    /// `track * 11 + sector`.
    pub filled: Seq<bool>,
    /// Tracks contributed by sector tracks.
    pub from_sector: nat,
    /// Tracks contributed by raw MFM.
    pub from_raw: nat,
    /// What happened on each track.
    pub states: Seq<TrackState>,
}

/// The blank disk an assembly starts from: zeros, no slot filled, every
/// track absent.
pub open spec fn blank_recovery() -> Recovery {
    Recovery {
        bytes: Seq::new(901120, |_i: int| 0u8),
        filled: Seq::new(1760, |_i: int| false),
        from_sector: 0,
        from_raw: 0,
        states: Seq::new(160, |i: int| blank_state(i)),
    }
}

/// Sectors placed so far: the slots that hold real data, each counted once
/// however many copies of it were written.
pub open spec fn placed(p: Recovery) -> nat {
    held(p.filled)
}

/// Placing a raw track's sound sectors: each by its own sector number, a
/// sector that claims no place on the track or is the wrong size skipped, a
/// later copy of a sector written over an earlier one. The image after, and
/// which of the track's sectors are present.
pub open spec fn place_sectors(out: Seq<u8>, marks: Seq<bool>, base: int, sectors: Seq<DecodedSector>) -> (
    Seq<u8>,
    Seq<bool>,
)
    decreases sectors.len(),
{
    if sectors.len() == 0 {
        (out, marks)
    } else {
        let (o, m) = place_sectors(out, marks, base, sectors.drop_last());
        let s = sectors.last();
        if s.sound && s.number < 11 && s.data@.len() == 512 {
            (place(o, base + s.number * 512, s.data@), m.update(s.number as int, true))
        } else {
            (o, m)
        }
    }
}

/// The state a track ends in.
pub open spec fn track_state(index: int, here: nat, source: TrackSource) -> TrackState {
    TrackState {
        index: index as usize,
        sectors: if here > 255 { 255 } else { here as u8 },
        expected: 11,
        source,
    }
}

/// One track's contribution.
///
/// Sectors are placed by the track's physical position and their own sector
/// number. The track number a sector claims is deliberately not used: some
/// disks label every track 0, and trusting that would pile the whole disk
/// onto track 0. A raw track is recorded even when nothing decoded: it is
/// the most interesting cell on a surface view.
pub open spec fn take_track(p: Recovery, t: TrackInput) -> Recovery {
    if t.index >= 160 || t.data is None {
        p
    } else {
        let base = t.index * 5632;
        match t.data->0 {
            TrackData::Sectors(d) => {
                let len = if d@.len() < 5632 { d@.len() as int } else { 5632 };
                let here = (len / 512) as nat;
                Recovery {
                    bytes: place(p.bytes, base, d@.take(len)),
                    filled: merge_marks(p.filled, t.index as int, first_marks(here as int)),
                    from_sector: sat(p.from_sector + 1),
                    from_raw: p.from_raw,
                    states: p.states.update(t.index as int, track_state(t.index as int, here, TrackSource::Sectors)),
                }
            },
            TrackData::RawMfm(ss) => {
                let (bytes, marks) = place_sectors(p.bytes, no_marks(), base, ss@);
                let here = held(marks);
                Recovery {
                    bytes,
                    filled: merge_marks(p.filled, t.index as int, marks),
                    from_sector: p.from_sector,
                    from_raw: if here > 0 { sat(p.from_raw + 1) } else { p.from_raw },
                    states: p.states.update(t.index as int, track_state(t.index as int, here, TrackSource::RawMfm)),
                }
            },
            TrackData::Unknown => p,
        }
    }
}

/// Every track's contribution, in order, from the blank disk.
pub open spec fn recovered(tracks: Seq<TrackInput>) -> Recovery
    decreases tracks.len(),
{
    if tracks.len() == 0 {
        blank_recovery()
    } else {
        take_track(recovered(tracks.drop_last()), tracks.last())
    }
}

/// Write `data[..len]` over `out` from `at`.
fn copy_into(out: &mut Vec<u8>, at: usize, data: &Vec<u8>, len: usize)
    requires
        len <= data@.len(),
        at + len <= old(out).len(),
    ensures
        final(out)@ == place(old(out)@, at as int, data@.take(len as int)),
{
    let ghost start = out@;
    let mut i: usize = 0;
    while i < len
        invariant
            len <= data@.len(),
            at + len <= start.len(),
            at + len <= out.len(),
            i <= len,
            out@.len() == start.len(),
            forall|j: int| 0 <= j < at ==> out@[j] == start[j],
            forall|j: int| 0 <= j < i ==> out@[at + j] == data@[j],
            forall|j: int| at + i <= j < start.len() ==> out@[j] == start[j],
        decreases len - i,
    {
        out.set(at + i, data[i]);
        i = i + 1;
    }
    assert(out@ =~= place(start, at as int, data@.take(len as int)));
}

/// A track's marks with none set.
fn fresh_marks() -> (r: Vec<bool>)
    ensures
        r@ == no_marks(),
{
    let r: Vec<bool> = vec![false; 11];
    assert(r@ =~= no_marks()) by {
        assert forall|k: int| 0 <= k < 11 implies r@[k] == false by {
            assert(cloned(false, r@[k]));
        }
    }
    r
}

/// The marks of a sector track whose first `n` sectors are present.
fn leading_marks(n: usize) -> (r: Vec<bool>)
    ensures
        r@ == first_marks(n as int),
{
    let mut r: Vec<bool> = Vec::new();
    let mut k: usize = 0;
    while k < DD_SECTORS
        invariant
            k <= 11,
            r@ == Seq::new(k as nat, |j: int| j < n),
        decreases 11 - k,
    {
        r.push(k < n);
        k = k + 1;
        assert(r@ =~= Seq::new(k as nat, |j: int| j < n));
    }
    r
}

/// Record in `filled` the sectors of track `index` that `marks` holds.
fn merge_into(filled: &mut Vec<bool>, index: usize, marks: &Vec<bool>)
    requires
        old(filled)@.len() == 1760,
        index < 160,
        marks@.len() == 11,
    ensures
        final(filled)@ == merge_marks(old(filled)@, index as int, marks@),
{
    let ghost start = filled@;
    let first = index * DD_SECTORS;
    let mut k: usize = 0;
    while k < DD_SECTORS
        invariant
            first == index * 11,
            index < 160,
            marks@.len() == 11,
            k <= 11,
            start.len() == 1760,
            filled@.len() == 1760,
            forall|j: int|
                0 <= j < 1760 ==> #[trigger] filled@[j] == if first <= j < first + k {
                    merge_marks(start, index as int, marks@)[j]
                } else {
                    start[j]
                },
        decreases 11 - k,
    {
        if marks[k] {
            filled.set(first + k, true);
        }
        k = k + 1;
    }
    assert(filled@ =~= merge_marks(start, index as int, marks@));
}

/// Place a raw track's sound sectors.
fn place_raw(out: &mut Vec<u8>, marks: &mut Vec<bool>, base: usize, sectors: &Vec<DecodedSector>)
    requires
        old(out)@.len() == 901120,
        old(marks)@.len() == 11,
        base + 5632 <= 901120,
    ensures
        (final(out)@, final(marks)@) == place_sectors(old(out)@, old(marks)@, base as int, sectors@),
        final(out)@.len() == 901120,
        final(marks)@.len() == 11,
{
    let ghost start = out@;
    let ghost start_marks = marks@;
    let mut k: usize = 0;
    while k < sectors.len()
        invariant
            base + 5632 <= 901120,
            k <= sectors@.len(),
            out@.len() == 901120,
            marks@.len() == 11,
            (out@, marks@) == place_sectors(start, start_marks, base as int, sectors@.take(k as int)),
        decreases sectors@.len() - k,
    {
        let s = &sectors[k];
        assert(sectors@.take(k + 1).drop_last() =~= sectors@.take(k as int));
        if s.sound && s.number < 11 && s.data.len() == 512 {
            let at = base + (s.number as usize) * 512;
            copy_into(out, at, &s.data, 512);
            assert(s.data@.take(512) =~= s.data@);
            marks.set(s.number as usize, true);
        }
        k = k + 1;
    }
    assert(sectors@.take(k as int) =~= sectors@);
}

/// How many marks are set.
fn count_held(have: &Vec<bool>) -> (r: usize)
    ensures
        r == held(have@),
        r <= have@.len(),
{
    let mut r: usize = 0;
    let mut i: usize = 0;
    while i < have.len()
        invariant
            i <= have@.len(),
            r == held(have@.take(i as int)),
            r <= i,
        decreases have@.len() - i,
    {
        assert(have@.take(i + 1).drop_last() =~= have@.take(i as int));
        if have[i] {
            r = r + 1;
        }
        i = i + 1;
    }
    assert(have@.take(i as int) =~= have@);
    r
}

/// No slot is filled on the blank disk.
fn empty_slots() -> (r: Vec<bool>)
    ensures
        r@ == Seq::new(1760, |_i: int| false),
{
    let r: Vec<bool> = vec![false; 1760];
    assert(r@ =~= Seq::new(1760, |_i: int| false)) by {
        assert forall|i: int| 0 <= i < 1760 implies r@[i] == false by {
            assert(cloned(false, r@[i]));
        }
    }
    r
}

/// The zeroed image an assembly starts from.
fn blank_image() -> (r: Vec<u8>)
    ensures
        r@ == Seq::new(901120, |_i: int| 0u8),
{
    let r: Vec<u8> = vec![0u8; 901120];
    assert(r@ =~= Seq::new(901120, |_i: int| 0u8)) by {
        assert forall|i: int| 0 <= i < 901120 implies r@[i] == 0u8 by {
            assert(cloned(0u8, r@[i]));
        }
    }
    r
}

/// Assemble a plain double-density image from whatever a raw-track
/// container yields, track by track in the order given.
///
/// `sectors_placed` counts the disk's sector slots that hold real data, each
/// once: a sector written twice (a repeated copy on a raw track, or a track
/// listed twice) is one sector of the disk, so the count never exceeds
/// `sectors_total`.
pub fn assemble(tracks: &Vec<TrackInput>) -> (a: Assembly)
    ensures
        a.bytes@ == recovered(tracks@).bytes,
        a.sectors_placed == placed(recovered(tracks@)),
        a.sectors_placed <= a.sectors_total,
        a.sectors_total == DD_TOTAL_SECTORS,
        a.from_sector_tracks == recovered(tracks@).from_sector,
        a.from_raw_tracks == recovered(tracks@).from_raw,
        a.tracks@ == recovered(tracks@).states,
{
    let mut out = blank_image();
    let mut filled = empty_slots();
    let mut states = blank_tracks();
    let mut from_sector: usize = 0;
    let mut from_raw: usize = 0;
    let mut i: usize = 0;
    while i < tracks.len()
        invariant
            i <= tracks@.len(),
            out@ == recovered(tracks@.take(i as int)).bytes,
            out@.len() == 901120,
            filled@ == recovered(tracks@.take(i as int)).filled,
            filled@.len() == 1760,
            states@.len() == 160,
            from_sector == recovered(tracks@.take(i as int)).from_sector,
            from_raw == recovered(tracks@.take(i as int)).from_raw,
            states@ == recovered(tracks@.take(i as int)).states,
        decreases tracks@.len() - i,
    {
        let t = &tracks[i];
        assert(tracks@.take(i + 1).drop_last() =~= tracks@.take(i as int));
        if t.index < DD_TRACKS {
            let base = t.index * TRACK_BYTES;
            match &t.data {
                Some(TrackData::Sectors(d)) => {
                    let len = if d.len() < TRACK_BYTES { d.len() } else { TRACK_BYTES };
                    copy_into(&mut out, base, d, len);
                    let here = len / SECTOR_BYTES;
                    let marks = leading_marks(here);
                    merge_into(&mut filled, t.index, &marks);
                    from_sector = if from_sector == usize::MAX { usize::MAX } else { from_sector + 1 };
                    states.set(
                        t.index,
                        TrackState { index: t.index, sectors: here as u8, expected: 11, source: TrackSource::Sectors },
                    );
                },
                Some(TrackData::RawMfm(sectors)) => {
                    let mut marks = fresh_marks();
                    place_raw(&mut out, &mut marks, base, sectors);
                    let here = count_held(&marks);
                    merge_into(&mut filled, t.index, &marks);
                    if here > 0 {
                        from_raw = if from_raw == usize::MAX { usize::MAX } else { from_raw + 1 };
                    }
                    states.set(
                        t.index,
                        TrackState { index: t.index, sectors: here as u8, expected: 11, source: TrackSource::RawMfm },
                    );
                },
                _ => {},
            }
        }
        i = i + 1;
    }
    assert(tracks@.take(i as int) =~= tracks@);
    let placed_count = count_held(&filled);
    Assembly {
        bytes: out,
        sectors_placed: placed_count,
        sectors_total: DD_TOTAL_SECTORS,
        from_sector_tracks: from_sector,
        from_raw_tracks: from_raw,
        tracks: states,
    }
}


/// One track of a flux capture: its physical position, and for each stored
/// revolution the sectors it decoded to, or `None` where the revolution's
/// timings could not be read.
#[derive(Debug, Clone)]
pub struct FluxTrack {
    /// Cylinder times two, plus the head.
    pub index: usize,
    /// Each revolution's decode, in the order stored.
    pub revolutions: Vec<Option<Vec<DecodedSector>>>,
}

/// Filling a track from one revolution: a sound sector is taken only where
/// no earlier one was. The image after, and which sectors are held.
pub open spec fn fill(out: Seq<u8>, have: Seq<bool>, base: int, sectors: Seq<DecodedSector>) -> (
    Seq<u8>,
    Seq<bool>,
)
    decreases sectors.len(),
{
    if sectors.len() == 0 {
        (out, have)
    } else {
        let (o, h) = fill(out, have, base, sectors.drop_last());
        let s = sectors.last();
        if s.sound && s.number < 11 && !h[s.number as int] && s.data@.len() == 512 {
            (place(o, base + s.number * 512, s.data@), h.update(s.number as int, true))
        } else {
            (o, h)
        }
    }
}

/// Filling a track from every revolution in turn: a marginal sector reads
/// differently each time, so any sound sector a later revolution yields that
/// is still missing is taken.
pub open spec fn fill_all(out: Seq<u8>, base: int, revolutions: Seq<Option<Vec<DecodedSector>>>) -> (
    Seq<u8>,
    Seq<bool>,
)
    decreases revolutions.len(),
{
    if revolutions.len() == 0 {
        (out, no_marks())
    } else {
        let (o, h) = fill_all(out, base, revolutions.drop_last());
        match revolutions.last() {
            None => (o, h),
            Some(ss) => fill(o, h, base, ss@),
        }
    }
}

/// One flux track's contribution. Every track within the disk is recorded,
/// even one that yielded nothing.
pub open spec fn take_flux_track(p: Recovery, t: FluxTrack) -> Recovery {
    if t.index >= 160 {
        p
    } else {
        let (bytes, have) = fill_all(p.bytes, t.index * 5632, t.revolutions@);
        let here = held(have);
        Recovery {
            bytes,
            filled: merge_marks(p.filled, t.index as int, have),
            from_sector: p.from_sector,
            from_raw: if here > 0 { sat(p.from_raw + 1) } else { p.from_raw },
            states: p.states.update(t.index as int, track_state(t.index as int, here, TrackSource::RawMfm)),
        }
    }
}

/// Every flux track's contribution, in order, from the blank disk.
pub open spec fn recovered_flux(tracks: Seq<FluxTrack>) -> Recovery
    decreases tracks.len(),
{
    if tracks.len() == 0 {
        blank_recovery()
    } else {
        take_flux_track(recovered_flux(tracks.drop_last()), tracks.last())
    }
}

/// Fill a track from one revolution.
fn fill_from(out: &mut Vec<u8>, have: &mut Vec<bool>, base: usize, sectors: &Vec<DecodedSector>)
    requires
        old(out)@.len() == 901120,
        old(have)@.len() == 11,
        base + 5632 <= 901120,
    ensures
        (final(out)@, final(have)@) == fill(old(out)@, old(have)@, base as int, sectors@),
        final(out)@.len() == 901120,
        final(have)@.len() == 11,
{
    let ghost start = out@;
    let ghost start_have = have@;
    let mut k: usize = 0;
    while k < sectors.len()
        invariant
            base + 5632 <= 901120,
            k <= sectors@.len(),
            out@.len() == 901120,
            have@.len() == 11,
            (out@, have@) == fill(start, start_have, base as int, sectors@.take(k as int)),
        decreases sectors@.len() - k,
    {
        let s = &sectors[k];
        assert(sectors@.take(k + 1).drop_last() =~= sectors@.take(k as int));
        if s.sound && s.number < 11 && !have[s.number as usize] && s.data.len() == 512 {
            let at = base + (s.number as usize) * 512;
            copy_into(out, at, &s.data, 512);
            assert(s.data@.take(512) =~= s.data@);
            have.set(s.number as usize, true);
        }
        k = k + 1;
    }
    assert(sectors@.take(k as int) =~= sectors@);
}

/// Assemble a plain double-density image from a flux capture: the same
/// reconstruction as [`assemble`], one layer further down, every revolution
/// tried and the sectors merged. `sectors_placed` counts filled slots of the
/// disk, each once, as there.
pub fn assemble_scp(tracks: &Vec<FluxTrack>) -> (a: Assembly)
    ensures
        a.bytes@ == recovered_flux(tracks@).bytes,
        a.sectors_placed == placed(recovered_flux(tracks@)),
        a.sectors_placed <= a.sectors_total,
        a.sectors_total == DD_TOTAL_SECTORS,
        a.from_sector_tracks == 0,
        a.from_raw_tracks == recovered_flux(tracks@).from_raw,
        a.tracks@ == recovered_flux(tracks@).states,
{
    let mut out = blank_image();
    let mut filled = empty_slots();
    let mut states = blank_tracks();
    let mut from_raw: usize = 0;
    let mut i: usize = 0;
    while i < tracks.len()
        invariant
            i <= tracks@.len(),
            out@ == recovered_flux(tracks@.take(i as int)).bytes,
            out@.len() == 901120,
            filled@ == recovered_flux(tracks@.take(i as int)).filled,
            filled@.len() == 1760,
            states@.len() == 160,
            recovered_flux(tracks@.take(i as int)).from_sector == 0,
            from_raw == recovered_flux(tracks@.take(i as int)).from_raw,
            states@ == recovered_flux(tracks@.take(i as int)).states,
        decreases tracks@.len() - i,
    {
        let t = &tracks[i];
        assert(tracks@.take(i + 1).drop_last() =~= tracks@.take(i as int));
        if t.index < DD_TRACKS {
            let base = t.index * TRACK_BYTES;
            let mut have = fresh_marks();
            let ghost track_start = out@;
            let mut r: usize = 0;
            while r < t.revolutions.len()
                invariant
                    base + 5632 <= 901120,
                    base == t.index * 5632,
                    r <= t.revolutions@.len(),
                    out@.len() == 901120,
                    have@.len() == 11,
                    (out@, have@) == fill_all(track_start, base as int, t.revolutions@.take(r as int)),
                decreases t.revolutions@.len() - r,
            {
                assert(t.revolutions@.take(r + 1).drop_last() =~= t.revolutions@.take(r as int));
                match &t.revolutions[r] {
                    None => {},
                    Some(sectors) => {
                        fill_from(&mut out, &mut have, base, sectors);
                    },
                }
                r = r + 1;
            }
            assert(t.revolutions@.take(r as int) =~= t.revolutions@);
            let here = count_held(&have);
            merge_into(&mut filled, t.index, &have);
            if here > 0 {
                from_raw = if from_raw == usize::MAX { usize::MAX } else { from_raw + 1 };
            }
            states.set(
                t.index,
                TrackState { index: t.index, sectors: here as u8, expected: 11, source: TrackSource::RawMfm },
            );
        }
        i = i + 1;
    }
    assert(tracks@.take(i as int) =~= tracks@);
    let placed_count = count_held(&filled);
    Assembly {
        bytes: out,
        sectors_placed: placed_count,
        sectors_total: DD_TOTAL_SECTORS,
        from_sector_tracks: 0,
        from_raw_tracks: from_raw,
        tracks: states,
    }
}


/// Whether a recovery has the shape of a double-density disk: every byte of
/// it, one slot per sector, and one state per track, each at its own place.
pub open spec fn disk_shaped(p: Recovery) -> bool {
    &&& p.bytes.len() == 901120
    &&& p.filled.len() == 1760
    &&& p.states.len() == 160
    &&& forall|i: int| 0 <= i < 160 ==> (#[trigger] p.states[i]).index == i && p.states[i].expected == 11
}

proof fn lemma_sectors_keep_length(out: Seq<u8>, marks: Seq<bool>, base: int, sectors: Seq<DecodedSector>)
    requires
        out.len() == 901120,
        0 <= base,
        base + 5632 <= 901120,
    ensures
        place_sectors(out, marks, base, sectors).0.len() == 901120,
    decreases sectors.len(),
{
    if sectors.len() > 0 {
        lemma_sectors_keep_length(out, marks, base, sectors.drop_last());
    }
}

proof fn lemma_fill_keeps_length(out: Seq<u8>, have: Seq<bool>, base: int, sectors: Seq<DecodedSector>)
    requires
        out.len() == 901120,
        0 <= base,
        base + 5632 <= 901120,
    ensures
        fill(out, have, base, sectors).0.len() == 901120,
    decreases sectors.len(),
{
    if sectors.len() > 0 {
        lemma_fill_keeps_length(out, have, base, sectors.drop_last());
    }
}

proof fn lemma_fill_all_keeps_length(out: Seq<u8>, base: int, revolutions: Seq<Option<Vec<DecodedSector>>>)
    requires
        out.len() == 901120,
        0 <= base,
        base + 5632 <= 901120,
    ensures
        fill_all(out, base, revolutions).0.len() == 901120,
    decreases revolutions.len(),
{
    if revolutions.len() > 0 {
        lemma_fill_all_keeps_length(out, base, revolutions.drop_last());
        let (o, h) = fill_all(out, base, revolutions.drop_last());
        match revolutions.last() {
            None => {},
            Some(ss) => {
                lemma_fill_keeps_length(o, h, base, ss@);
            },
        }
    }
}

/// No more marks are set than there are.
proof fn lemma_held_at_most_len(have: Seq<bool>)
    ensures
        held(have) <= have.len(),
    decreases have.len(),
{
    if have.len() > 0 {
        lemma_held_at_most_len(have.drop_last());
    }
}

/// An assembly is always a whole double-density disk with one state for
/// each of its 160 tracks, however few or many tracks the container
/// mentioned: a track nothing mentioned is present and empty, not absent.
/// And however many copies of a sector were written, it is one sector of
/// the disk: the sectors placed never exceed the 1760 a disk holds.
pub proof fn lemma_assembly_is_disk_shaped(tracks: Seq<TrackInput>)
    ensures
        disk_shaped(recovered(tracks)),
        placed(recovered(tracks)) <= 1760,
    decreases tracks.len(),
{
    if tracks.len() > 0 {
        lemma_assembly_is_disk_shaped(tracks.drop_last());
        let p = recovered(tracks.drop_last());
        let t = tracks.last();
        if t.index < 160 && t.data is Some {
            match t.data->0 {
                TrackData::RawMfm(ss) => {
                    lemma_sectors_keep_length(p.bytes, no_marks(), t.index * 5632, ss@);
                },
                _ => {},
            }
        }
    } else {
        assert(disk_shaped(blank_recovery()));
    }
    lemma_held_at_most_len(recovered(tracks).filled);
}

/// The same of a flux capture: a whole disk, one state per track, and never
/// more sectors placed than the disk holds, however many revolutions yielded
/// the same sector.
pub proof fn lemma_flux_assembly_is_disk_shaped(tracks: Seq<FluxTrack>)
    ensures
        disk_shaped(recovered_flux(tracks)),
        placed(recovered_flux(tracks)) <= 1760,
    decreases tracks.len(),
{
    if tracks.len() > 0 {
        lemma_flux_assembly_is_disk_shaped(tracks.drop_last());
        let p = recovered_flux(tracks.drop_last());
        let t = tracks.last();
        if t.index < 160 {
            lemma_fill_all_keeps_length(p.bytes, t.index * 5632, t.revolutions@);
        }
    } else {
        assert(disk_shaped(blank_recovery()));
    }
    lemma_held_at_most_len(recovered_flux(tracks).filled);
}

} // verus!
