//! The format-conversion matrix.
//!
//! Every ordered pair of formats has an answer — lossless, lossy and why, not
//! implemented and why, or refused and why — so a conversion that would lose
//! something says so before it runs.
use vstd::prelude::*;

use crate::json::{JsonView, Value, fields_view, items_view, lemma_fields_view};
use crate::text::push_str;

verus! {

/// A container format, as far as conversion is concerned.
#[derive(Debug, Clone, Copy, PartialEq, Eq)]
pub enum Kind {
    /// A plain sector image of a floppy.
    Adf {
        /// Cylinders the image holds.
        cylinders: u32,
        /// Sectors per track.
        sectors: u32,
    },
    /// A raw volume with no partition table.
    Hardfile,
    /// A whole device with a Rigid Disk Block.
    RigidDisk,
    /// A gzip-compressed image (ADZ, HDZ).
    Gzip,
    /// An extended ADF: a table of raw-MFM and sector tracks.
    ExtendedAdf {
        /// Tracks the table declares.
        tracks: u32,
    },
    /// A DiskMasher archive.
    Dms,
    /// A SuperCard Pro flux capture.
    Scp,
    /// An IPF preservation image.
    Ipf,
    /// Nothing recognised.
    Unknown,
}

/// What a conversion between two formats would cost.
#[derive(Debug, Clone, Copy, PartialEq, Eq)]
pub enum Conversion {
    /// The output holds everything the input did.
    Lossless,
    /// The conversion is possible but discards something.
    Lossy {
        /// What would not survive.
        lost: &'static str,
    },
    /// Not implemented yet, and why.
    NotImplemented {
        /// The reason.
        why: &'static str,
    },
    /// A decision not to, and why.
    Refused {
        /// The reason.
        why: &'static str,
    },
}

/// The two kinds are the same format, whatever their geometry.
pub open spec fn same_format(a: Kind, b: Kind) -> bool {
    match (a, b) {
        (Kind::Adf { .. }, Kind::Adf { .. }) => true,
        (Kind::Hardfile, Kind::Hardfile) => true,
        (Kind::RigidDisk, Kind::RigidDisk) => true,
        (Kind::Gzip, Kind::Gzip) => true,
        (Kind::ExtendedAdf { .. }, Kind::ExtendedAdf { .. }) => true,
        (Kind::Dms, Kind::Dms) => true,
        (Kind::Scp, Kind::Scp) => true,
        (Kind::Ipf, Kind::Ipf) => true,
        (Kind::Unknown, Kind::Unknown) => true,
        _ => false,
    }
}

/// Whether two kinds are the same format, whatever their geometry.
pub fn is_same_format(a: Kind, b: Kind) -> (r: bool)
    ensures
        r == same_format(a, b),
{
    match (a, b) {
        (Kind::Adf { .. }, Kind::Adf { .. }) => true,
        (Kind::Hardfile, Kind::Hardfile) => true,
        (Kind::RigidDisk, Kind::RigidDisk) => true,
        (Kind::Gzip, Kind::Gzip) => true,
        (Kind::ExtendedAdf { .. }, Kind::ExtendedAdf { .. }) => true,
        (Kind::Dms, Kind::Dms) => true,
        (Kind::Scp, Kind::Scp) => true,
        (Kind::Ipf, Kind::Ipf) => true,
        (Kind::Unknown, Kind::Unknown) => true,
        _ => false,
    }
}

/// Why IPF is refused.
pub const WHY_IPF_REFUSED: &'static str = "IPF authoring is SPS-only and ADE will never emit it (C-003)";
/// Why flux is not written.
pub const WHY_NO_FLUX_WRITE: &'static str = "flux writing is not implemented; flux cannot be reconstructed from a sector image in any case";
/// Why only a sector image encodes.
pub const WHY_ONLY_SECTORS_ENCODE: &'static str = "only a sector image can be encoded as raw MFM";
/// Why gzip is not written.
pub const WHY_NO_DEFLATE: &'static str = "ADE inflates but does not deflate; writing compressed images is not needed to read a corpus";
/// Why DMS is refused.
pub const WHY_DMS_REFUSED: &'static str = "DMS creation is not a preservation format and ADE will not emit it";
/// Why a partition table is not built.
pub const WHY_NO_RDB_WRITE: &'static str = "building a partition table is a write path, deferred to Phase 4 (D-004)";
/// What leaves with the raw tracks of an extended ADF.
pub const LOST_RAW_TRACKS: &'static str = "raw MFM tracks and any copy protection they carry \u{2014} the reason the disk was captured this way";
/// What leaves with the flux of a capture.
pub const LOST_FLUX: &'static str = "flux timings, weak bits and copy protection; only the sectors that decode cleanly would survive";
/// Why IPF is not read.
pub const WHY_NO_IPF_READ: &'static str = "IPF reading needs the CAPS library and is Phase 4 (C-003)";
/// Why DMS is not read.
pub const WHY_NO_DMS_READ: &'static str = "no DMS reader \u{2014} blocked on test material, not effort (D-009)";
/// Why an unknown container is not converted.
pub const WHY_UNKNOWN: &'static str = "the input container was not recognised";

/// The conversion table: what converting `from` into `to` would cost.
pub open spec fn conversion_of(from: Kind, to: Kind) -> Conversion {
    if to is Ipf {
        Conversion::Refused { why: WHY_IPF_REFUSED }
    } else if to is Scp {
        Conversion::NotImplemented { why: WHY_NO_FLUX_WRITE }
    } else if to is ExtendedAdf {
        if from is Adf || from is Hardfile || from is Gzip || from is ExtendedAdf {
            Conversion::Lossless
        } else {
            Conversion::NotImplemented { why: WHY_ONLY_SECTORS_ENCODE }
        }
    } else if to is Gzip {
        Conversion::NotImplemented { why: WHY_NO_DEFLATE }
    } else if to is Dms {
        Conversion::Refused { why: WHY_DMS_REFUSED }
    } else if to is RigidDisk {
        Conversion::NotImplemented { why: WHY_NO_RDB_WRITE }
    } else {
        match from {
            Kind::Gzip | Kind::Adf { .. } | Kind::Hardfile | Kind::RigidDisk => Conversion::Lossless,
            Kind::ExtendedAdf { .. } => Conversion::Lossy { lost: LOST_RAW_TRACKS },
            Kind::Scp => Conversion::Lossy { lost: LOST_FLUX },
            Kind::Ipf => Conversion::NotImplemented { why: WHY_NO_IPF_READ },
            Kind::Dms => Conversion::NotImplemented { why: WHY_NO_DMS_READ },
            Kind::Unknown => Conversion::NotImplemented { why: WHY_UNKNOWN },
        }
    }
}

/// What converting `from` into `to` would cost.
pub fn conversion(from: Kind, to: Kind) -> (r: Conversion)
    ensures
        r == conversion_of(from, to),
{
    if let Kind::Ipf = to {
        return Conversion::Refused { why: WHY_IPF_REFUSED };
    }
    if let Kind::Scp = to {
        return Conversion::NotImplemented { why: WHY_NO_FLUX_WRITE };
    }
    if let Kind::ExtendedAdf { .. } = to {
        return match from {
            Kind::Adf { .. } | Kind::Hardfile | Kind::Gzip | Kind::ExtendedAdf { .. } => Conversion::Lossless,
            _ => Conversion::NotImplemented { why: WHY_ONLY_SECTORS_ENCODE },
        };
    }
    if let Kind::Gzip = to {
        return Conversion::NotImplemented { why: WHY_NO_DEFLATE };
    }
    if let Kind::Dms = to {
        return Conversion::Refused { why: WHY_DMS_REFUSED };
    }
    if let Kind::RigidDisk = to {
        return Conversion::NotImplemented { why: WHY_NO_RDB_WRITE };
    }
    match from {
        Kind::Gzip | Kind::Adf { .. } | Kind::Hardfile | Kind::RigidDisk => Conversion::Lossless,
        Kind::ExtendedAdf { .. } => Conversion::Lossy { lost: LOST_RAW_TRACKS },
        Kind::Scp => Conversion::Lossy { lost: LOST_FLUX },
        Kind::Ipf => Conversion::NotImplemented { why: WHY_NO_IPF_READ },
        Kind::Dms => Conversion::NotImplemented { why: WHY_NO_DMS_READ },
        Kind::Unknown => Conversion::NotImplemented { why: WHY_UNKNOWN },
    }
}

/// Every format ADE can name, for reporting the matrix.
pub open spec fn known_formats_spec() -> Seq<Kind> {
    seq![
        Kind::Adf { cylinders: 80, sectors: 11 },
        Kind::Hardfile,
        Kind::RigidDisk,
        Kind::Gzip,
        Kind::ExtendedAdf { tracks: 160 },
        Kind::Dms,
        Kind::Scp,
        Kind::Ipf,
    ]
}

/// Every format ADE can name, for reporting the matrix.
pub fn known_formats() -> (r: Vec<Kind>)
    ensures
        r@ == known_formats_spec(),
{
    let r = vec![
        Kind::Adf { cylinders: 80, sectors: 11 },
        Kind::Hardfile,
        Kind::RigidDisk,
        Kind::Gzip,
        Kind::ExtendedAdf { tracks: 160 },
        Kind::Dms,
        Kind::Scp,
        Kind::Ipf,
    ];
    assert(r@ =~= known_formats_spec());
    r
}

/// The short label a conversion is reported by.
pub open spec fn label_of(c: Conversion) -> &'static str {
    match c {
        Conversion::Lossless => "lossless",
        Conversion::Lossy { .. } => "lossy",
        Conversion::NotImplemented { .. } => "not implemented",
        Conversion::Refused { .. } => "refused",
    }
}

/// The reason a conversion carries, if any.
pub open spec fn reason_of(c: Conversion) -> Option<&'static str> {
    match c {
        Conversion::Lossless => None,
        Conversion::Lossy { lost } => Some(lost),
        Conversion::NotImplemented { why } => Some(why),
        Conversion::Refused { why } => Some(why),
    }
}

/// The model of one conversion as JSON: `kind` and `reason` are separate,
/// because *refused* is a decision and *not implemented* is a gap.
pub open spec fn conversion_json(c: Conversion) -> JsonView {
    JsonView::Obj(
        seq![
            ("kind"@, JsonView::Str(label_of(c)@)),
            ("possible"@, JsonView::Bool(c is Lossless || c is Lossy)),
            ("reason"@, match reason_of(c) {
                Some(r) => JsonView::Str(r@),
                None => JsonView::Null,
            }),
        ],
    )
}

impl Conversion {
    /// Whether a conversion may proceed at all.
    pub fn is_possible(&self) -> (r: bool)
        ensures
            r == (*self is Lossless || *self is Lossy),
    {
        match self {
            Conversion::Lossless | Conversion::Lossy { .. } => true,
            _ => false,
        }
    }

    /// A short label for reporting.
    pub fn label(&self) -> (r: &'static str)
        ensures
            r == label_of(*self),
    {
        match self {
            Conversion::Lossless => "lossless",
            Conversion::Lossy { .. } => "lossy",
            Conversion::NotImplemented { .. } => "not implemented",
            Conversion::Refused { .. } => "refused",
        }
    }

    /// One conversion as JSON.
    pub fn to_json(&self) -> (v: Value)
        ensures
            v@ == conversion_json(*self),
    {
        let reason = match self {
            Conversion::Lossless => Value::Null,
            Conversion::Lossy { lost } => Value::str(lost),
            Conversion::NotImplemented { why } => Value::str(why),
            Conversion::Refused { why } => Value::str(why),
        };
        let fields = vec![
            ("kind", Value::str(self.label())),
            ("possible", Value::Bool(self.is_possible())),
            ("reason", reason),
        ];
        proof {
            lemma_fields_view(fields@);
            assert(fields_view(fields@) =~= conversion_json(*self)->Obj_0);
        }
        Value::Obj(fields)
    }

    /// The verdict as a person reads it: the label, then the reason.
    pub fn message(&self) -> (s: String)
        ensures
            s@ == match *self {
                Conversion::Lossless => "lossless"@,
                Conversion::Lossy { lost } => "lossy \u{2014} "@ + lost@,
                Conversion::NotImplemented { why } => "not implemented \u{2014} "@ + why@,
                Conversion::Refused { why } => "refused \u{2014} "@ + why@,
            },
    {
        let mut out = String::new();
        match self {
            Conversion::Lossless => push_str(&mut out, "lossless"),
            Conversion::Lossy { lost } => {
                push_str(&mut out, "lossy \u{2014} ");
                push_str(&mut out, lost);
            },
            Conversion::NotImplemented { why } => {
                push_str(&mut out, "not implemented \u{2014} ");
                push_str(&mut out, why);
            },
            Conversion::Refused { why } => {
                push_str(&mut out, "refused \u{2014} ");
                push_str(&mut out, why);
            },
        }
        out
    }
}

} // verus!

verus! {

/// Why a conversion was not done. Refused and lossy are both errors here:
/// a conversion that quietly discards something is what ADE exists to replace.
#[derive(Debug, Clone, PartialEq, Eq)]
pub enum ConvertError {
    /// The pair is possible but would discard something.
    Lossy {
        /// What would not survive.
        lost: &'static str,
    },
    /// ADE cannot do this pair yet.
    NotImplemented {
        /// Why.
        why: &'static str,
    },
    /// ADE will not do this pair, ever.
    Refused {
        /// Why.
        why: &'static str,
    },
    /// The input could not be read or re-encoded.
    Failed {
        /// What went wrong.
        reason: String,
    },
}

/// What went wrong, for a person.
pub open spec fn error_text(e: ConvertError) -> Seq<char> {
    match e {
        ConvertError::Lossy { lost } => "this would discard "@ + lost@,
        ConvertError::NotImplemented { why } => "not implemented \u{2014} "@ + why@,
        ConvertError::Refused { why } => "refused \u{2014} "@ + why@,
        ConvertError::Failed { reason } => reason@,
    }
}

/// The stable code for an error, part of the machine surface.
pub open spec fn error_code(e: ConvertError) -> &'static str {
    match e {
        ConvertError::Lossy { .. } => "lossy",
        ConvertError::NotImplemented { .. } => "not-implemented",
        ConvertError::Refused { .. } => "refused",
        ConvertError::Failed { .. } => "failed",
    }
}

impl ConvertError {
    /// A stable code for the machine surface.
    pub fn code(&self) -> (r: &'static str)
        ensures
            r == error_code(*self),
    {
        match self {
            ConvertError::Lossy { .. } => "lossy",
            ConvertError::NotImplemented { .. } => "not-implemented",
            ConvertError::Refused { .. } => "refused",
            ConvertError::Failed { .. } => "failed",
        }
    }

    /// What went wrong, for a person.
    pub fn message(&self) -> (s: String)
        ensures
            s@ == error_text(*self),
    {
        let mut out = String::new();
        match self {
            ConvertError::Lossy { lost } => {
                push_str(&mut out, "this would discard ");
                push_str(&mut out, lost);
            },
            ConvertError::NotImplemented { why } => {
                push_str(&mut out, "not implemented \u{2014} ");
                push_str(&mut out, why);
            },
            ConvertError::Refused { why } => {
                push_str(&mut out, "refused \u{2014} ");
                push_str(&mut out, why);
            },
            ConvertError::Failed { reason } => push_str(&mut out, reason.as_str()),
        }
        out
    }
}

/// What a conversion that may go ahead has to do.
#[derive(Debug, Clone, Copy, PartialEq, Eq)]
pub struct Plan {
    /// Decompress first: the input is gzip.
    pub inflate: bool,
    /// Encode the sectors as raw MFM tracks: the target is an extended ADF.
    pub encode_mfm: bool,
}

/// The plan for converting `from` into `to`: only a lossless pair goes ahead.
pub open spec fn plan_of(from: Kind, to: Kind) -> Result<Plan, ConvertError> {
    match conversion_of(from, to) {
        Conversion::Lossless => Ok(Plan { inflate: from is Gzip, encode_mfm: to is ExtendedAdf }),
        Conversion::Lossy { lost } => Err(ConvertError::Lossy { lost }),
        Conversion::NotImplemented { why } => Err(ConvertError::NotImplemented { why }),
        Conversion::Refused { why } => Err(ConvertError::Refused { why }),
    }
}

/// Decide whether `from` may be converted into `to`, and what doing it takes.
///
/// Only a lossless pair goes ahead; every other verdict is an error carrying
/// the matrix's own reason, and the caller gets no bytes.
pub fn plan(from: Kind, to: Kind) -> (r: Result<Plan, ConvertError>)
    ensures
        r == plan_of(from, to),
{
    match conversion(from, to) {
        Conversion::Lossless => {},
        Conversion::Lossy { lost } => return Err(ConvertError::Lossy { lost }),
        Conversion::NotImplemented { why } => return Err(ConvertError::NotImplemented { why }),
        Conversion::Refused { why } => return Err(ConvertError::Refused { why }),
    }
    let inflate = match from {
        Kind::Gzip => true,
        _ => false,
    };
    let encode_mfm = match to {
        Kind::ExtendedAdf { .. } => true,
        _ => false,
    };
    Ok(Plan { inflate, encode_mfm })
}

/// What is left of a conversion once its verdict is given and its source
/// inflated.
#[derive(Debug, Clone)]
pub enum Converted {
    /// The output, complete: the sector image itself.
    Output(Vec<u8>),
    /// A sector image still to be written out as raw MFM tracks.
    Encode(Vec<u8>),
}

/// The sector image a conversion that may go ahead works from: the source
/// bytes as they are, or what a compressed source inflated to.
pub open spec fn staged_of(p: Plan, bytes: Seq<u8>, inflated: Option<Result<Vec<u8>, String>>) -> Result<Seq<u8>, Seq<char>> {
    if p.inflate {
        match inflated {
            Some(Ok(v)) => Ok(v@),
            Some(Err(reason)) => Err(reason@),
            None => Err(Seq::empty()),
        }
    } else {
        Ok(bytes)
    }
}

/// Convert an image's bytes into another container, as far as this library
/// goes: the verdict, then decompression first, so a raw-MFM target works
/// from an ADZ as readily as from an ADF.
///
/// `from` is what the source was detected as. `inflated` is what inflating
/// the source gave, and is needed only where the source is compressed. A
/// refused, lossy or unimplemented pair gives the matrix's own error; a
/// source that would not inflate fails with the inflater's reason. Otherwise
/// the result is the sector image, as the output itself or, for an extended
/// ADF target, as what is still to be encoded.
pub fn convert_bytes(bytes: Vec<u8>, from: Kind, to: Kind, inflated: Option<Result<Vec<u8>, String>>) -> (r: Result<
    Converted,
    ConvertError,
>)
    requires
        plan_of(from, to) matches Ok(p) && p.inflate ==> inflated is Some,
    ensures
        plan_of(from, to) matches Err(e) ==> r == Err::<Converted, ConvertError>(e),
        plan_of(from, to) matches Ok(p) ==> match staged_of(p, bytes@, inflated) {
            Err(reason) => r matches Err(ConvertError::Failed { reason: m }) && m@ == reason,
            Ok(sectors) => if p.encode_mfm {
                r matches Ok(Converted::Encode(v)) && v@ == sectors
            } else {
                r matches Ok(Converted::Output(v)) && v@ == sectors
            },
        },
{
    let p = match plan(from, to) {
        Ok(p) => p,
        Err(e) => return Err(e),
    };
    let sectors = if p.inflate {
        match inflated {
            Some(Ok(v)) => v,
            Some(Err(reason)) => return Err(ConvertError::Failed { reason }),
            None => return Err(ConvertError::Failed { reason: String::new() }),
        }
    } else {
        bytes
    };
    if p.encode_mfm {
        Ok(Converted::Encode(sectors))
    } else {
        Ok(Converted::Output(sectors))
    }
}

/// What encoding a sector image as raw MFM gave, as a conversion's result: a
/// failure to encode fails the conversion with its reason.
pub fn encoded_output(encoded: Result<Vec<u8>, String>) -> (r: Result<Vec<u8>, ConvertError>)
    ensures
        encoded matches Ok(v) ==> r matches Ok(w) && w@ == v@,
        encoded matches Err(reason) ==> r matches Err(ConvertError::Failed { reason: m }) && m@ == reason@,
{
    match encoded {
        Ok(v) => Ok(v),
        Err(reason) => Err(ConvertError::Failed { reason }),
    }
}

/// The file extension a container is conventionally written with. An
/// extended ADF is `.adf` like a plain one: the extension cannot tell them apart.
pub open spec fn extension_of(kind: Kind) -> &'static str {
    match kind {
        Kind::Adf { .. } | Kind::ExtendedAdf { .. } => "adf",
        Kind::Hardfile | Kind::RigidDisk => "hdf",
        Kind::Gzip => "adz",
        Kind::Dms => "dms",
        Kind::Scp => "scp",
        Kind::Ipf => "ipf",
        Kind::Unknown => "bin",
    }
}

/// The file extension a container is conventionally written with.
pub fn extension_for(kind: Kind) -> (r: &'static str)
    ensures
        r == extension_of(kind),
{
    match kind {
        Kind::Adf { .. } | Kind::ExtendedAdf { .. } => "adf",
        Kind::Hardfile | Kind::RigidDisk => "hdf",
        Kind::Gzip => "adz",
        Kind::Dms => "dms",
        Kind::Scp => "scp",
        Kind::Ipf => "ipf",
        Kind::Unknown => "bin",
    }
}

/// `c` folded to lower case, ASCII letters only.
pub open spec fn ascii_lower(c: char) -> char {
    if 'A' <= c <= 'Z' {
        ((c as u32) + 32) as char
    } else {
        c
    }
}

/// A string folded to lower case, ASCII letters only.
pub open spec fn ascii_lowercase(s: Seq<char>) -> Seq<char> {
    s.map_values(|c: char| ascii_lower(c))
}

/// The characters of `s` with ASCII capitals lowered.
pub(crate) fn lowercase_chars(s: &str) -> (r: Vec<char>)
    ensures
        r@ == ascii_lowercase(s@),
{
    broadcast use vstd::string::group_string_axioms;
    let mut lower: Vec<char> = Vec::new();
    let ghost mut seen: int = 0;
    for c in it: s.chars()
        invariant
            it.seq() == s@,
            seen == it.index(),
            seen <= s@.len(),
            lower@ == ascii_lowercase(s@.take(seen)),
    {
        let ghost before = lower@;
        let folded = if 'A' <= c && c <= 'Z' {
            ((c as u8) + 32) as char
        } else {
            c
        };
        lower.push(folded);
        proof {
            assert(folded == ascii_lower(c));
        }
        proof {
            seen = seen + 1;
        }
        assert(lower@ =~= ascii_lowercase(s@.take(seen)));
    }
    assert(s@.take(seen) =~= s@);
    lower
}

/// The container an output file's extension names, case-insensitively.
///
/// Only for an output, which does not exist yet and cannot be sniffed: an
/// input is always identified by its content.
pub open spec fn kind_of_extension(ext: Seq<char>) -> Option<Kind> {
    let e = ascii_lowercase(ext);
    if e == "adf"@ {
        Some(Kind::Adf { cylinders: 80, sectors: 11 })
    } else if e == "hdf"@ || e == "hda"@ {
        Some(Kind::Hardfile)
    } else if e == "adz"@ || e == "hdz"@ || e == "gz"@ {
        Some(Kind::Gzip)
    } else if e == "dms"@ {
        Some(Kind::Dms)
    } else if e == "scp"@ {
        Some(Kind::Scp)
    } else if e == "ipf"@ {
        Some(Kind::Ipf)
    } else {
        None
    }
}

/// Whether `s` is exactly the literal `lit`.
pub(crate) fn equals_literal(s: &Vec<char>, lit: &str) -> (r: bool)
    ensures
        r == (s@ == lit@),
{
    broadcast use vstd::string::group_string_axioms;
    let mut i: usize = 0;
    for c in it: lit.chars()
        invariant
            it.seq() == lit@,
            i == it.index(),
            i <= lit@.len(),
            i <= s@.len(),
            s@.take(i as int) == lit@.take(i as int),
    {
        if i >= s.len() || s[i] != c {
            proof {
                if i < s@.len() {
                    assert(s@[i as int] != lit@[i as int]);
                } else {
                    assert(s@.len() < lit@.len());
                }
            }
            return false;
        }
        i = i + 1;
        assert(s@.take(i as int) =~= lit@.take(i as int)) by {
            assert(s@.take(i as int) =~= s@.take(i - 1).push(s@[i - 1]));
            assert(lit@.take(i as int) =~= lit@.take(i - 1).push(lit@[i - 1]));
        }
    }
    if i != s.len() {
        assert(s@.len() != lit@.len());
        return false;
    }
    assert(s@ =~= s@.take(i as int));
    assert(lit@ =~= lit@.take(i as int));
    true
}

/// The container an output file's extension names, case-insensitively.
pub fn kind_from_extension(ext: &str) -> (r: Option<Kind>)
    ensures
        r == kind_of_extension(ext@),
{
    let lower = lowercase_chars(ext);
    if equals_literal(&lower, "adf") {
        Some(Kind::Adf { cylinders: 80, sectors: 11 })
    } else if equals_literal(&lower, "hdf") || equals_literal(&lower, "hda") {
        Some(Kind::Hardfile)
    } else if equals_literal(&lower, "adz") || equals_literal(&lower, "hdz") || equals_literal(&lower, "gz") {
        Some(Kind::Gzip)
    } else if equals_literal(&lower, "dms") {
        Some(Kind::Dms)
    } else if equals_literal(&lower, "scp") {
        Some(Kind::Scp)
    } else if equals_literal(&lower, "ipf") {
        Some(Kind::Ipf)
    } else {
        None
    }
}

} // verus!

verus! {

/// A format together with the names it is reported by: a stable code for
/// machines, and a label for people.
#[derive(Debug, Clone)]
pub struct FormatName {
    /// The format.
    pub kind: Kind,
    /// Its stable code.
    pub code: String,
    /// Its label.
    pub label: String,
}

/// The stable code a format is reported by.
pub open spec fn format_code(kind: Kind) -> Seq<char> {
    match kind {
        Kind::Adf { .. } => "adf"@,
        Kind::Hardfile => "hardfile"@,
        Kind::RigidDisk => "rdb"@,
        Kind::Gzip => "gzip"@,
        Kind::ExtendedAdf { .. } => "extended-adf"@,
        Kind::Dms => "dms"@,
        Kind::Scp => "scp"@,
        Kind::Ipf => "ipf"@,
        Kind::Unknown => "unknown"@,
    }
}

/// The label a format is shown to people by.
pub open spec fn format_label(kind: Kind) -> Seq<char> {
    match kind {
        Kind::Adf { cylinders, .. } => "ADF ("@ + crate::text::decimal(cylinders as nat) + " cylinders)"@,
        Kind::Hardfile => "hardfile"@,
        Kind::RigidDisk => "hard disk with a Rigid Disk Block"@,
        Kind::Gzip => "gzip-compressed image"@,
        Kind::ExtendedAdf { .. } => "extended ADF"@,
        Kind::Dms => "DMS archive"@,
        Kind::Scp => "SCP flux capture"@,
        Kind::Ipf => "IPF"@,
        Kind::Unknown => "unrecognised"@,
    }
}

/// The code and label a format is reported by.
pub fn format_name(kind: Kind) -> (f: FormatName)
    ensures
        f.kind == kind,
        f.code@ == format_code(kind),
        f.label@ == format_label(kind),
{
    let mut code = String::new();
    let mut label = String::new();
    match kind {
        Kind::Adf { cylinders, .. } => {
            push_str(&mut code, "adf");
            push_str(&mut label, "ADF (");
            crate::text::push_decimal(&mut label, cylinders as u64);
            push_str(&mut label, " cylinders)");
        },
        Kind::Hardfile => {
            push_str(&mut code, "hardfile");
            push_str(&mut label, "hardfile");
        },
        Kind::RigidDisk => {
            push_str(&mut code, "rdb");
            push_str(&mut label, "hard disk with a Rigid Disk Block");
        },
        Kind::Gzip => {
            push_str(&mut code, "gzip");
            push_str(&mut label, "gzip-compressed image");
        },
        Kind::ExtendedAdf { .. } => {
            push_str(&mut code, "extended-adf");
            push_str(&mut label, "extended ADF");
        },
        Kind::Dms => {
            push_str(&mut code, "dms");
            push_str(&mut label, "DMS archive");
        },
        Kind::Scp => {
            push_str(&mut code, "scp");
            push_str(&mut label, "SCP flux capture");
        },
        Kind::Ipf => {
            push_str(&mut code, "ipf");
            push_str(&mut label, "IPF");
        },
        Kind::Unknown => {
            push_str(&mut code, "unknown");
            push_str(&mut label, "unrecognised");
        },
    }
    FormatName { kind, code, label }
}

/// The model of one row of the matrix.
pub open spec fn row_json(a: FormatName, b: FormatName) -> JsonView {
    JsonView::Obj(
        seq![
            ("from"@, JsonView::Str(a.code@)),
            ("to"@, JsonView::Str(b.code@)),
            ("from_label"@, JsonView::Str(a.label@)),
            ("to_label"@, JsonView::Str(b.label@)),
            ("conversion"@, conversion_json(conversion_of(a.kind, b.kind))),
        ],
    )
}

/// The rows converting `a` into each of the first `m` formats, skipping `a`'s own format.
pub open spec fn rows_from(f: Seq<FormatName>, a: FormatName, m: int) -> Seq<JsonView>
    decreases m,
{
    if m <= 0 {
        Seq::empty()
    } else if same_format(a.kind, f[m - 1].kind) {
        rows_from(f, a, m - 1)
    } else {
        rows_from(f, a, m - 1).push(row_json(a, f[m - 1]))
    }
}

/// Every row whose source is among the first `m` formats, in order.
pub open spec fn matrix_rows(f: Seq<FormatName>, m: int) -> Seq<JsonView>
    decreases m,
{
    if m <= 0 {
        Seq::empty()
    } else {
        matrix_rows(f, m - 1) + rows_from(f, f[m - 1], f.len() as int)
    }
}

/// The model of the whole matrix as JSON.
pub open spec fn matrix_json_of(f: Seq<FormatName>) -> JsonView {
    JsonView::Obj(seq![("conversions"@, JsonView::Arr(matrix_rows(f, f.len() as int)))])
}

/// One row of the matrix.
fn row(a: &FormatName, b: &FormatName) -> (v: Value)
    ensures
        v@ == row_json(*a, *b),
{
    let fields = vec![
        ("from", Value::str(a.code.as_str())),
        ("to", Value::str(b.code.as_str())),
        ("from_label", Value::str(a.label.as_str())),
        ("to_label", Value::str(b.label.as_str())),
        ("conversion", conversion(a.kind, b.kind).to_json()),
    ];
    proof {
        lemma_fields_view(fields@);
        assert(fields_view(fields@) =~= row_json(*a, *b)->Obj_0);
    }
    Value::Obj(fields)
}

/// The whole conversion matrix as JSON: every ordered pair of distinct
/// formats, including the impossible ones — the pairs that say no are as much
/// the answer as the ones that say yes.
pub fn matrix_json(formats: &Vec<FormatName>) -> (v: Value)
    ensures
        v@ == matrix_json_of(formats@),
{
    let mut rows: Vec<Value> = Vec::new();
    let mut i: usize = 0;
    while i < formats.len()
        invariant
            i <= formats@.len(),
            items_view(rows@) == matrix_rows(formats@, i as int),
        decreases formats@.len() - i,
    {
        let ghost start = items_view(rows@);
        let mut j: usize = 0;
        while j < formats.len()
            invariant
                i < formats@.len(),
                j <= formats@.len(),
                items_view(rows@) == start + rows_from(formats@, formats@[i as int], j as int),
            decreases formats@.len() - j,
        {
            if !is_same_format(formats[i].kind, formats[j].kind) {
                let ghost before = rows@;
                let item = row(&formats[i], &formats[j]);
                rows.push(item);
                assert(rows@.drop_last() =~= before);
                assert(items_view(rows@) =~= start + rows_from(formats@, formats@[i as int], j + 1));
            }
            j = j + 1;
        }
        i = i + 1;
    }
    let fields = vec![("conversions", Value::Arr(rows))];
    proof {
        lemma_fields_view(fields@);
        assert(fields_view(fields@) =~= matrix_json_of(formats@)->Obj_0);
    }
    Value::Obj(fields)
}

/// IPF is never written: converting anything into IPF is refused, and
/// refused is a decision rather than a gap.
pub proof fn ipf_is_never_written(from: Kind)
    ensures
        conversion_of(from, Kind::Ipf) == (Conversion::Refused { why: WHY_IPF_REFUSED }),
{
}

/// Taking the raw tracks or the flux out of a capture and keeping only its
/// sectors is lossy, and says what it loses: the copy protection that was the
/// reason to capture the disk this way.
pub proof fn leaving_a_capture_is_lossy(from: Kind, to: Kind)
    requires
        from is ExtendedAdf || from is Scp,
        to is Adf || to is Hardfile,
    ensures
        conversion_of(from, to) is Lossy,
        plan_of(from, to) is Err,
{
}

/// Only a lossless conversion goes ahead: a plan exists exactly when the
/// matrix says lossless, so nothing is ever discarded silently.
pub proof fn only_lossless_conversions_run(from: Kind, to: Kind)
    ensures
        plan_of(from, to) is Ok <==> conversion_of(from, to) is Lossless,
{
}

/// ADF, HDF and a whole-device image are the same flat run of sectors, and a
/// gzip wrapper only compresses one: converting any of them into an ADF or an
/// HDF loses nothing and goes ahead, inflating first exactly when the source
/// is compressed and encoding nothing.
pub proof fn sector_images_convert_losslessly(from: Kind, to: Kind)
    requires
        from is Adf || from is Hardfile || from is RigidDisk || from is Gzip,
        to is Adf || to is Hardfile,
    ensures
        conversion_of(from, to) == Conversion::Lossless,
        plan_of(from, to) == Ok::<Plan, ConvertError>(Plan { inflate: from is Gzip, encode_mfm: false }),
{
}

/// A sector image, compressed or not, and an extended ADF can each be
/// written as an extended ADF of raw MFM tracks without loss; the plan encodes,
/// and inflates only a compressed source.
pub proof fn sector_images_encode_losslessly(from: Kind, tracks: u32)
    requires
        from is Adf || from is Hardfile || from is Gzip || from is ExtendedAdf,
    ensures
        conversion_of(from, Kind::ExtendedAdf { tracks }) == Conversion::Lossless,
        plan_of(from, Kind::ExtendedAdf { tracks }) == Ok::<Plan, ConvertError>(
            Plan { inflate: from is Gzip, encode_mfm: true },
        ),
{
}

/// Whatever the source, nothing is ever written as a DMS archive or an IPF
/// (a decision, refused), nor as flux, a compressed image or a partitioned
/// device (not implemented): no such pair has a plan.
pub proof fn unwritable_targets_are_never_planned(from: Kind, to: Kind)
    requires
        to is Dms || to is Ipf || to is Scp || to is Gzip || to is RigidDisk,
    ensures
        (to is Dms || to is Ipf) ==> conversion_of(from, to) is Refused,
        (to is Scp || to is Gzip || to is RigidDisk) ==> conversion_of(from, to) is NotImplemented,
        plan_of(from, to) is Err,
{
}

/// A source nothing here can read as sectors (an IPF, a DMS archive, an
/// unrecognised container) converts into nothing.
pub proof fn unreadable_sources_convert_to_nothing(from: Kind, to: Kind)
    requires
        from is Ipf || from is Dms || from is Unknown,
    ensures
        !(conversion_of(from, to) is Lossless),
        plan_of(from, to) is Err,
{
}

} // verus!
