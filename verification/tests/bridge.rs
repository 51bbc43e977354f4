use lib::bridge::{AdeEntryKind, AdeResult, EntryKind};
use lib::{version, VERSION};

#[test]
fn result_codes_are_fixed() {
    let all = [
        AdeResult::Success,
        AdeResult::NullArgument,
        AdeResult::Io,
        AdeResult::NoVolume,
        AdeResult::BadEncoding,
        AdeResult::NotFound,
        AdeResult::Internal,
    ];
    let codes: Vec<u32> = all.iter().map(|r| r.code()).collect();
    assert_eq!(codes, vec![0, 1, 2, 3, 4, 5, 6]);
}

#[test]
fn the_root_is_a_directory_and_an_unknown_type_stays_unknown() {
    assert_eq!(AdeEntryKind::of(EntryKind::Root), AdeEntryKind::Directory);
    assert_eq!(AdeEntryKind::of(EntryKind::Directory), AdeEntryKind::Directory);
    assert_eq!(AdeEntryKind::of(EntryKind::File), AdeEntryKind::File);
    assert_eq!(AdeEntryKind::of(EntryKind::HardLinkFile), AdeEntryKind::LinkFile);
    assert_eq!(AdeEntryKind::of(EntryKind::HardLinkDir), AdeEntryKind::LinkDir);
    assert_eq!(AdeEntryKind::of(EntryKind::SoftLink), AdeEntryKind::SoftLink);
    assert_eq!(AdeEntryKind::of(EntryKind::Unknown(-7)), AdeEntryKind::Unknown);
    let codes: Vec<u32> = [
        AdeEntryKind::File,
        AdeEntryKind::Directory,
        AdeEntryKind::LinkFile,
        AdeEntryKind::LinkDir,
        AdeEntryKind::SoftLink,
        AdeEntryKind::Unknown,
    ]
    .iter()
    .map(|k| k.code())
    .collect();
    assert_eq!(codes, vec![0, 1, 2, 3, 4, 5]);
}

#[test]
fn the_version_is_a_plain_dotted_number() {
    assert_eq!(version(), VERSION);
    assert_eq!(version().split('.').count(), 3);
    assert!(version().bytes().all(|b| b.is_ascii_digit() || b == b'.'));
}
