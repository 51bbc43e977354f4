use lib::consolidate::{consolidate, diff, Agreement, ConsolidateError, SECTOR, SECTORS_PER_TRACK};

/// A dump of `sectors` sectors, each filled with its own index.
fn dump(sectors: usize) -> Vec<u8> {
    (0..sectors * SECTOR).map(|i| (i / SECTOR) as u8).collect()
}

fn with_sector(mut d: Vec<u8>, s: usize, fill: u8) -> Vec<u8> {
    for b in d[s * SECTOR..(s + 1) * SECTOR].iter_mut() {
        *b = fill;
    }
    d
}

#[test]
fn diff_reports_identical_images_as_identical() {
    let d = diff(&dump(22), &dump(22)).unwrap();
    assert!(d.is_identical());
    assert!(d.sectors.is_empty());
    assert!(d.tracks.is_empty());
    assert_eq!(d.sectors_total, 22);
    assert_eq!(
        d.to_json().to_json(),
        "{\"identical\":true,\"sectors_total\":22,\"sectors_differing\":0,\"bytes_differing\":0,\"sectors\":[],\"tracks\":[]}"
    );
}

#[test]
fn diff_locates_a_difference() {
    let a = dump(33);
    let mut b = with_sector(a.clone(), 12, 0xFF);
    b[25 * SECTOR + 7] ^= 1;
    let d = diff(&a, &b).unwrap();
    assert_eq!(d.sectors, vec![12, 25]);
    assert_eq!(d.tracks, vec![12 / SECTORS_PER_TRACK, 25 / SECTORS_PER_TRACK]);
    assert_eq!(d.bytes_differing, 512 + 1);
    assert!(!d.is_identical());
    // Comparing the other way round finds the same places.
    let e = diff(&b, &a).unwrap();
    assert_eq!(e.sectors, d.sectors);
    assert_eq!(e.tracks, d.tracks);
    assert_eq!(e.bytes_differing, d.bytes_differing);
}

#[test]
fn diff_refuses_dumps_that_are_not_of_one_disk() {
    assert_eq!(
        diff(&dump(2), &dump(3)).unwrap_err(),
        ConsolidateError::SizeMismatch { expected: 1024, found: 1536 }
    );
    assert_eq!(diff(&[0u8; 100], &[0u8; 100]).unwrap_err(), ConsolidateError::NotWholeSectors { length: 100 });
    assert_eq!(
        ConsolidateError::SizeMismatch { expected: 1024, found: 1536 }.message(),
        "dumps are different sizes (1024 and 1536) \u{2014} not dumps of one disk"
    );
    assert_eq!(
        ConsolidateError::NotWholeSectors { length: 100 }.message(),
        "100 bytes is not a whole number of 512-byte sectors"
    );
    assert_eq!(ConsolidateError::TooFewSources.message(), "consolidating needs at least two dumps");
}

#[test]
fn consolidating_needs_two_dumps_of_the_same_whole_size() {
    assert_eq!(consolidate(&[dump(11)]).unwrap_err(), ConsolidateError::TooFewSources);
    assert_eq!(consolidate(&[]).unwrap_err(), ConsolidateError::TooFewSources);
    assert_eq!(
        consolidate(&[vec![0u8; 10], vec![0u8; 10]]).unwrap_err(),
        ConsolidateError::NotWholeSectors { length: 10 }
    );
    assert_eq!(
        consolidate(&[dump(11), dump(22)]).unwrap_err(),
        ConsolidateError::SizeMismatch { expected: 5632, found: 11264 }
    );
}

#[test]
fn identical_dumps_agree_everywhere() {
    let c = consolidate(&[dump(22), dump(22), dump(22)]).unwrap();
    assert!(c.is_unanimous());
    assert_eq!(c.unanimous_sectors, 22);
    assert_eq!(c.total_sectors(), 22);
    assert!(c.tracks.is_empty());
    assert_eq!(c.bytes, dump(22));
}

#[test]
fn consolidate_says_two_dumps_cannot_vote() {
    let a = dump(11);
    let b = with_sector(a.clone(), 4, 0xEE);
    let c = consolidate(&[a.clone(), b]).unwrap();
    assert_eq!(c.resolved_sectors, 0);
    assert_eq!(c.unresolved_sectors, 1);
    assert_eq!(c.tracks.len(), 1);
    assert_eq!(c.tracks[0].disputed, vec![4]);
    assert_eq!(c.tracks[0].unresolved, vec![4]);
    assert!(!c.tracks[0].is_unanimous());
    // A tie takes the first dump's version.
    assert_eq!(c.bytes, a);
    let json = c.to_json().to_json();
    assert!(json.contains("\"can_vote\":false"));
    assert_eq!(
        json,
        "{\"sources\":2,\"sectors_total\":11,\"unanimous\":false,\"agreed_sectors\":10,\
         \"resolved_sectors\":0,\"unresolved_sectors\":1,\"can_vote\":false,\
         \"tracks\":[{\"track\":0,\"disputed\":[4],\"unresolved\":[4]}]}"
    );
}

#[test]
fn three_dumps_settle_a_sector_by_plurality() {
    let a = dump(22);
    let bad = with_sector(a.clone(), 15, 0x55);
    let c = consolidate(&[bad.clone(), a.clone(), a.clone()]).unwrap();
    assert_eq!(c.resolved_sectors, 1);
    assert_eq!(c.unresolved_sectors, 0);
    assert_eq!(c.unanimous_sectors, 21);
    assert_eq!(c.bytes, a);
    assert_eq!(c.tracks.len(), 1);
    assert_eq!(c.tracks[0].track, 1);
    assert_eq!(c.tracks[0].disputed, vec![4]);
    assert!(c.tracks[0].unresolved.is_empty());
    assert!(c.to_json().to_json().contains("\"can_vote\":true"));
}

#[test]
fn three_different_versions_tie() {
    let a = dump(11);
    let b = with_sector(a.clone(), 0, 1);
    let c3 = with_sector(a.clone(), 0, 2);
    let c = consolidate(&[b.clone(), a, c3]).unwrap();
    assert_eq!(c.unresolved_sectors, 1);
    assert_eq!(&c.bytes[..SECTOR], &b[..SECTOR]);
}

#[test]
fn agreement_says_whether_it_settled() {
    assert!(Agreement::Unanimous.is_resolved());
    assert!(Agreement::Plurality { agreeing: 2, distinct: 2 }.is_resolved());
    assert!(!Agreement::Tied { distinct: 2 }.is_resolved());
}

#[test]
fn a_consolidation_is_unanimous_exactly_when_the_dumps_are_identical() {
    let a = dump(22);
    let same = consolidate(&[a.clone(), a.clone(), a.clone()]).unwrap();
    assert!(same.is_unanimous());
    assert_eq!(same.bytes, a);
    assert!(same.tracks.is_empty());
    assert_eq!(same.unanimous_sectors, 22);
    let differs = consolidate(&[a.clone(), with_sector(a.clone(), 3, 0xFF), a.clone()]).unwrap();
    assert!(!differs.is_unanimous());
}

#[test]
fn a_diff_reads_the_same_either_way_round() {
    let a = dump(22);
    let b = with_sector(with_sector(a.clone(), 3, 0xFF), 15, 0x00);
    let x = diff(&a, &b).unwrap();
    let y = diff(&b, &a).unwrap();
    assert_eq!(x.sectors, y.sectors);
    assert_eq!(x.tracks, y.tracks);
    assert_eq!(x.bytes_differing, y.bytes_differing);
    assert_eq!(x.sectors_total, y.sectors_total);
    assert!(matches!(diff(&a, &a[..512]), Err(ConsolidateError::SizeMismatch { expected: 11264, found: 512 })));
    assert!(matches!(diff(&a[..512], &a), Err(ConsolidateError::SizeMismatch { expected: 512, found: 11264 })));
}

#[test]
fn dumps_of_different_lengths_are_a_size_mismatch_not_a_sector_count() {
    let a = dump(2);
    let r = consolidate(&[a.clone(), a[..512].to_vec(), vec![0u8; 7]]);
    assert!(matches!(r, Err(ConsolidateError::SizeMismatch { expected: 1024, found: 512 })));
}

#[test]
fn the_order_of_the_dumps_does_not_change_the_consolidation() {
    let a = dump(22);
    let b = with_sector(a.clone(), 3, 0xFF);
    let c = with_sector(with_sector(a.clone(), 14, 0x11), 3, 0xEE);
    let x = consolidate(&[a.clone(), b.clone(), c.clone(), b.clone()]).unwrap();
    let y = consolidate(&[c.clone(), b.clone(), b.clone(), a.clone()]).unwrap();
    assert_eq!(
        (x.unanimous_sectors, x.resolved_sectors, x.unresolved_sectors),
        (y.unanimous_sectors, y.resolved_sectors, y.unresolved_sectors)
    );
    assert_eq!(x.tracks.len(), y.tracks.len());
    for (p, q) in x.tracks.iter().zip(y.tracks.iter()) {
        assert_eq!((p.track, &p.disputed, &p.unresolved), (q.track, &q.disputed, &q.unresolved));
    }
    assert_eq!(x.bytes, y.bytes);
}
