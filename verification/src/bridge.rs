//! The codes the C interface reports by: flat integers rather than error
//! types, because a caller in another language switches on them and they
//! are fixed once released.
use vstd::prelude::*;

verus! {

/// How a call turned out.
#[derive(Debug, Clone, Copy, PartialEq, Eq, Structural)]
pub enum AdeResult {
    /// The call succeeded.
    Success,
    /// A null pointer was passed where one was required.
    NullArgument,
    /// The file could not be read.
    Io,
    /// The container was recognised but holds no mountable volume.
    NoVolume,
    /// A path or name was not valid UTF-8.
    BadEncoding,
    /// The requested block or index does not exist.
    NotFound,
    /// Something in the engine failed in a way the interface has no code for.
    Internal,
}

/// The number a result is reported by.
pub open spec fn result_code(r: AdeResult) -> u32 {
    match r {
        AdeResult::Success => 0,
        AdeResult::NullArgument => 1,
        AdeResult::Io => 2,
        AdeResult::NoVolume => 3,
        AdeResult::BadEncoding => 4,
        AdeResult::NotFound => 5,
        AdeResult::Internal => 6,
    }
}

impl AdeResult {
    /// The number this result is reported by.
    pub fn code(self) -> (r: u32)
        ensures
            r == result_code(self),
    {
        match self {
            AdeResult::Success => 0,
            AdeResult::NullArgument => 1,
            AdeResult::Io => 2,
            AdeResult::NoVolume => 3,
            AdeResult::BadEncoding => 4,
            AdeResult::NotFound => 5,
            AdeResult::Internal => 6,
        }
    }
}

/// What a directory entry is, as the filesystem records it.
#[derive(Debug, Clone, Copy, PartialEq, Eq, Structural)]
pub enum EntryKind {
    /// The root directory.
    Root,
    /// A directory.
    Directory,
    /// A file.
    File,
    /// A hard link to a file.
    HardLinkFile,
    /// A hard link to a directory.
    HardLinkDir,
    /// A soft link.
    SoftLink,
    /// A secondary type nothing recognises, kept as found.
    Unknown(i32),
}

/// What kind of thing a directory entry is, for the C interface.
#[derive(Debug, Clone, Copy, PartialEq, Eq, Structural)]
pub enum AdeEntryKind {
    /// A file.
    File,
    /// A directory.
    Directory,
    /// A hard link to a file.
    LinkFile,
    /// A hard link to a directory.
    LinkDir,
    /// A soft link.
    SoftLink,
    /// Something else, reported rather than guessed at.
    Unknown,
}

/// The interface kind of an entry kind: the root is a directory like any
/// other, and an unrecognised type stays unknown.
pub open spec fn interface_kind(k: EntryKind) -> AdeEntryKind {
    match k {
        EntryKind::File => AdeEntryKind::File,
        EntryKind::Root | EntryKind::Directory => AdeEntryKind::Directory,
        EntryKind::HardLinkFile => AdeEntryKind::LinkFile,
        EntryKind::HardLinkDir => AdeEntryKind::LinkDir,
        EntryKind::SoftLink => AdeEntryKind::SoftLink,
        EntryKind::Unknown(_) => AdeEntryKind::Unknown,
    }
}

/// The number an entry kind is reported by.
pub open spec fn entry_kind_code(k: AdeEntryKind) -> u32 {
    match k {
        AdeEntryKind::File => 0,
        AdeEntryKind::Directory => 1,
        AdeEntryKind::LinkFile => 2,
        AdeEntryKind::LinkDir => 3,
        AdeEntryKind::SoftLink => 4,
        AdeEntryKind::Unknown => 5,
    }
}

impl AdeEntryKind {
    /// The interface kind of an entry kind.
    pub fn of(kind: EntryKind) -> (r: AdeEntryKind)
        ensures
            r == interface_kind(kind),
    {
        match kind {
            EntryKind::File => AdeEntryKind::File,
            EntryKind::Root | EntryKind::Directory => AdeEntryKind::Directory,
            EntryKind::HardLinkFile => AdeEntryKind::LinkFile,
            EntryKind::HardLinkDir => AdeEntryKind::LinkDir,
            EntryKind::SoftLink => AdeEntryKind::SoftLink,
            EntryKind::Unknown(_) => AdeEntryKind::Unknown,
        }
    }

    /// The number this kind is reported by.
    pub fn code(self) -> (r: u32)
        ensures
            r == entry_kind_code(self),
    {
        match self {
            AdeEntryKind::File => 0,
            AdeEntryKind::Directory => 1,
            AdeEntryKind::LinkFile => 2,
            AdeEntryKind::LinkDir => 3,
            AdeEntryKind::SoftLink => 4,
            AdeEntryKind::Unknown => 5,
        }
    }
}

} // verus!
