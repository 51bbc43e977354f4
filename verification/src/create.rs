//! Making a blank disk: which filesystems will be written, what to call
//! them, what shape each disk is, and what day it was made.
use vstd::prelude::*;

use crate::convert::{ascii_lowercase, equals_literal};
use crate::inspect::Geometry;
use crate::text::{decimal, push_decimal, push_str};

verus! {

/// A filesystem a blank disk can be made with.
#[derive(Debug, Clone, Copy)]
pub struct DiskType {
    /// What a caller names it: `ffs-intl`.
    pub name: &'static str,
    /// What a person reads: `FFS, international (DOS\3)`.
    pub label: &'static str,
    /// The dostype's flags byte.
    pub flags: u8,
}

/// The names of the types, in order, with their flags bytes.
pub open spec fn type_table() -> Seq<(Seq<char>, u8)> {
    seq![
        ("ofs"@, 0u8),
        ("ffs"@, 1u8),
        ("ofs-intl"@, 2u8),
        ("ffs-intl"@, 3u8),
        ("ofs-dc"@, 4u8),
        ("ffs-dc"@, 5u8),
    ]
}

/// The six AmigaDOS types that are written. `DOS\6` and `DOS\7` are absent
/// on purpose: no image in use carries one, so writing one would produce a
/// format checkable only against itself.
pub fn types() -> (r: Vec<DiskType>)
    ensures
        r@.map_values(|t: DiskType| (t.name@, t.flags)) == type_table(),
        r@ == seq![
            DiskType { name: "ofs", label: "OFS (DOS\\0)", flags: 0 },
            DiskType { name: "ffs", label: "FFS (DOS\\1)", flags: 1 },
            DiskType { name: "ofs-intl", label: "OFS, international (DOS\\2)", flags: 2 },
            DiskType { name: "ffs-intl", label: "FFS, international (DOS\\3)", flags: 3 },
            DiskType { name: "ofs-dc", label: "OFS, directory cache (DOS\\4)", flags: 4 },
            DiskType { name: "ffs-dc", label: "FFS, directory cache (DOS\\5)", flags: 5 },
        ],
{
    let r = vec![
        DiskType { name: "ofs", label: "OFS (DOS\\0)", flags: 0 },
        DiskType { name: "ffs", label: "FFS (DOS\\1)", flags: 1 },
        DiskType { name: "ofs-intl", label: "OFS, international (DOS\\2)", flags: 2 },
        DiskType { name: "ffs-intl", label: "FFS, international (DOS\\3)", flags: 3 },
        DiskType { name: "ofs-dc", label: "OFS, directory cache (DOS\\4)", flags: 4 },
        DiskType { name: "ffs-dc", label: "FFS, directory cache (DOS\\5)", flags: 5 },
    ];
    assert(r@.map_values(|t: DiskType| (t.name@, t.flags)) =~= type_table());
    r
}

/// The default, and why it is not plain `ffs`: everything since Workbench
/// 2.0 writes the international variant, and a name with an accent sorts
/// wrongly without it.
pub const DEFAULT_TYPE: &'static str = "ffs-intl";

/// The flags byte of a type name, or `None` for a type that is not written.
pub open spec fn flags_of_type(name: Seq<char>) -> Option<u8> {
    if name == "ofs"@ {
        Some(0u8)
    } else if name == "ffs"@ {
        Some(1u8)
    } else if name == "ofs-intl"@ {
        Some(2u8)
    } else if name == "ffs-intl"@ {
        Some(3u8)
    } else if name == "ofs-dc"@ {
        Some(4u8)
    } else if name == "ffs-dc"@ {
        Some(5u8)
    } else {
        None
    }
}

/// The raw dostype a type name means, case-insensitively: `DOS` and the
/// type's flags byte. `None` for a type that is not written.
pub open spec fn dostype_of(name: Seq<char>) -> Option<u32> {
    match flags_of_type(ascii_lowercase(name)) {
        Some(f) => Some((0x444F5300 + f) as u32),
        None => None,
    }
}

/// The raw dostype a type name means, or `None` for a type that is not
/// written.
pub fn dostype(name: &str) -> (r: Option<u32>)
    ensures
        r == dostype_of(name@),
{
    let wanted = crate::convert::lowercase_chars(name);
    let flags: Option<u8> = if equals_literal(&wanted, "ofs") {
        Some(0)
    } else if equals_literal(&wanted, "ffs") {
        Some(1)
    } else if equals_literal(&wanted, "ofs-intl") {
        Some(2)
    } else if equals_literal(&wanted, "ffs-intl") {
        Some(3)
    } else if equals_literal(&wanted, "ofs-dc") {
        Some(4)
    } else if equals_literal(&wanted, "ffs-dc") {
        Some(5)
    } else {
        None
    };
    match flags {
        Some(f) => Some(0x444F5300u32 + f as u32),
        None => None,
    }
}

/// The shape of a disk to make.
#[derive(Debug, Clone, Copy, PartialEq, Eq, Structural)]
pub enum Shape {
    /// 3.5" double density: 880 KB, the norm.
    Dd,
    /// 3.5" high density: 1.76 MB.
    Hd,
    /// 5.25" double density: the A1020's 440 KB.
    Dd525,
    /// An unpartitioned hard disk of this many megabytes.
    Hard(u32),
}

/// The geometry a shape is formatted with, or why it is not a disk.
///
/// A hard disk is not a bigger floppy: it has only a block count, and one
/// head and 32 sectors makes a megabyte exactly 64 cylinders.
pub open spec fn geometry_of_shape(s: Shape) -> Result<Geometry, Seq<char>> {
    match s {
        Shape::Dd => Ok(Geometry { cylinders: 80, heads: 2, sectors: 11, block_size: 512, reserved: 2 }),
        Shape::Hd => Ok(Geometry { cylinders: 80, heads: 2, sectors: 22, block_size: 512, reserved: 2 }),
        Shape::Dd525 => Ok(Geometry { cylinders: 40, heads: 2, sectors: 11, block_size: 512, reserved: 2 }),
        Shape::Hard(mb) => if mb == 0 {
            Err("0 MB is not a disk"@)
        } else if mb * 64 > u32::MAX {
            Err(decimal(mb as nat) + " MB: too large"@)
        } else {
            Ok(
                Geometry {
                    cylinders: (mb * 64) as u32,
                    heads: 1,
                    sectors: 32,
                    block_size: 512,
                    reserved: 2,
                },
            )
        },
    }
}

impl Shape {
    /// The geometry to format, or why this is not a disk.
    pub fn geometry(self) -> (r: Result<Geometry, String>)
        ensures
            match (r, geometry_of_shape(self)) {
                (Ok(g), Ok(h)) => g == h,
                (Err(e), Err(m)) => e@ == m,
                _ => false,
            },
    {
        match self {
            Shape::Dd => Ok(Geometry { cylinders: 80, heads: 2, sectors: 11, block_size: 512, reserved: 2 }),
            Shape::Hd => Ok(Geometry { cylinders: 80, heads: 2, sectors: 22, block_size: 512, reserved: 2 }),
            Shape::Dd525 => Ok(
                Geometry { cylinders: 40, heads: 2, sectors: 11, block_size: 512, reserved: 2 },
            ),
            Shape::Hard(mb) => {
                if mb == 0 {
                    return Err("0 MB is not a disk".to_owned());
                }
                match mb.checked_mul(64) {
                    Some(cylinders) => Ok(
                        Geometry { cylinders, heads: 1, sectors: 32, block_size: 512, reserved: 2 },
                    ),
                    None => {
                        let mut why = String::new();
                        push_decimal(&mut why, mb as u64);
                        push_str(&mut why, " MB: too large");
                        Err(why)
                    },
                }
            },
        }
    }
}

/// A moment as AmigaDOS counts it.
#[derive(Debug, Clone, Copy, PartialEq, Eq, Structural)]
pub struct Stamp {
    /// Days since 1 January 1978.
    pub days: u32,
    /// Minutes since midnight.
    pub mins: u32,
    /// Fiftieths of a second within the minute.
    pub ticks: u32,
}

/// Days from the Unix epoch to the Amiga's, 1 January 1978: eight years
/// including the leap days of 1972 and 1976.
pub const AMIGA_EPOCH_IN_UNIX_DAYS: u64 = 2922;

/// The moment `secs` seconds after the Unix epoch, as AmigaDOS counts it.
///
/// Day zero is illegal: Amiga software treats it as unset. A clock before
/// 1978 gives day 1 rather than an underflow.
pub open spec fn stamp_at(secs: u64) -> Stamp {
    let days = secs / 86400;
    let since = if days > AMIGA_EPOCH_IN_UNIX_DAYS { days - AMIGA_EPOCH_IN_UNIX_DAYS } else { 0 };
    let day = if since < 1 { 1 } else { since };
    let in_day = secs % 86400;
    Stamp {
        days: if day > u32::MAX { 1 } else { day as u32 },
        mins: (in_day / 60) as u32,
        ticks: ((in_day % 60) * 50) as u32,
    }
}

/// The moment `secs` seconds after the Unix epoch, as AmigaDOS counts it.
pub fn stamp(secs: u64) -> (r: Stamp)
    ensures
        r == stamp_at(secs),
{
    let days = secs / 86400;
    let since = if days > AMIGA_EPOCH_IN_UNIX_DAYS { days - AMIGA_EPOCH_IN_UNIX_DAYS } else { 0 };
    let day = if since < 1 { 1 } else { since };
    let in_day = secs % 86400;
    Stamp {
        days: if day > u32::MAX as u64 { 1 } else { day as u32 },
        mins: (in_day / 60) as u32,
        ticks: ((in_day % 60) * 50) as u32,
    }
}

/// Why a type name was refused: the name, and every name that would have
/// been accepted.
pub open spec fn unknown_type_message(name: Seq<char>) -> Seq<char> {
    name + ": expected one of ofs, ffs, ofs-intl, ffs-intl, ofs-dc, ffs-dc"@
}

/// Why a type name was refused.
pub fn unknown_type(name: &str) -> (r: String)
    ensures
        r@ == unknown_type_message(name@),
{
    let mut s = String::new();
    push_str(&mut s, name);
    push_str(&mut s, ": expected one of ofs, ffs, ofs-intl, ffs-intl, ofs-dc, ffs-dc");
    s
}


/// A disk is never stamped day zero, which Amiga software treats as unset,
/// and its minute and tick stay within their ranges.
pub proof fn lemma_stamp_is_legal(secs: u64)
    ensures
        stamp_at(secs).days >= 1,
        stamp_at(secs).mins < 1440,
        stamp_at(secs).ticks < 3000,
{
}

} // verus!
