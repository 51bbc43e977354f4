use lib::assemble::{
    assemble, assemble_scp, blank_tracks, DecodedSector, FluxTrack, TrackData, TrackInput,
    TrackSource, DD_TOTAL_SECTORS, TRACK_BYTES,
};

fn sector(number: u8, sound: bool, fill: u8) -> DecodedSector {
    DecodedSector { number, sound, data: vec![fill; 512] }
}

#[test]
fn nothing_in_gives_a_whole_blank_disk() {
    let a = assemble(&vec![]);
    assert_eq!(a.bytes.len(), 901120);
    assert!(a.bytes.iter().all(|&b| b == 0));
    assert!(a.is_empty());
    assert_eq!(a.sectors_total, DD_TOTAL_SECTORS);
    assert_eq!(a.percent_complete(), 0);
    assert_eq!(a.tracks, blank_tracks());
    assert_eq!(a.tracks.len(), 160);
    assert!(a.tracks.iter().all(|t| t.source == TrackSource::Absent));
}

#[test]
fn a_sector_track_lands_at_its_physical_position() {
    let a = assemble(&vec![TrackInput { index: 3, data: Some(TrackData::Sectors(vec![7u8; TRACK_BYTES])) }]);
    assert_eq!(a.sectors_placed, 11);
    assert_eq!(a.from_sector_tracks, 1);
    assert!(a.bytes[3 * TRACK_BYTES..4 * TRACK_BYTES].iter().all(|&b| b == 7));
    assert_eq!(a.bytes[3 * TRACK_BYTES - 1], 0);
    assert_eq!(a.bytes[4 * TRACK_BYTES], 0);
    assert_eq!(a.tracks[3].sectors, 11);
    assert_eq!(a.tracks[3].source, TrackSource::Sectors);
    assert_eq!(a.tracks[3].cylinder(), 1);
    assert_eq!(a.tracks[3].head(), 1);
    assert_eq!(a.percent_complete(), 0);
}

#[test]
fn a_raw_track_places_its_sound_sectors_by_their_own_number() {
    let a = assemble(&vec![TrackInput {
        index: 0,
        data: Some(TrackData::RawMfm(vec![
            sector(2, true, 0xAA),
            sector(5, false, 0xBB),
            sector(11, true, 0xCC),
            DecodedSector { number: 3, sound: true, data: vec![1; 100] },
        ])),
    }]);
    assert_eq!(a.sectors_placed, 1);
    assert_eq!(a.from_raw_tracks, 1);
    assert!(a.bytes[1024..1536].iter().all(|&b| b == 0xAA));
    assert!(a.bytes[5 * 512..6 * 512].iter().all(|&b| b == 0));
    assert_eq!(a.tracks[0].sectors, 1);
    assert_eq!(a.tracks[0].source, TrackSource::RawMfm);
}

#[test]
fn a_raw_track_that_decodes_nothing_is_still_recorded() {
    let a = assemble(&vec![TrackInput { index: 9, data: Some(TrackData::RawMfm(vec![])) }]);
    assert_eq!(a.from_raw_tracks, 0);
    assert_eq!(a.tracks[9].source, TrackSource::RawMfm);
    assert_eq!(a.tracks[9].sectors, 0);
}

#[test]
fn tracks_beyond_the_disk_or_without_data_change_nothing() {
    let a = assemble(&vec![
        TrackInput { index: 160, data: Some(TrackData::Sectors(vec![1; TRACK_BYTES])) },
        TrackInput { index: 5, data: None },
        TrackInput { index: 6, data: Some(TrackData::Unknown) },
    ]);
    assert!(a.is_empty());
    assert_eq!(a.tracks, blank_tracks());
}

#[test]
fn a_short_sector_track_counts_whole_sectors_only() {
    let a = assemble(&vec![TrackInput { index: 1, data: Some(TrackData::Sectors(vec![9u8; 1100])) }]);
    assert_eq!(a.sectors_placed, 2);
    assert_eq!(a.bytes[TRACK_BYTES + 1099], 9);
    assert_eq!(a.bytes[TRACK_BYTES + 1100], 0);
}

#[test]
fn a_whole_disk_is_one_hundred_percent() {
    let tracks: Vec<TrackInput> = (0..160)
        .map(|i| TrackInput { index: i, data: Some(TrackData::Sectors(vec![1; TRACK_BYTES])) })
        .collect();
    let a = assemble(&tracks);
    assert_eq!(a.sectors_placed, 1760);
    assert_eq!(a.percent_complete(), 100);
    assert_eq!(TrackSource::Sectors.name(), "sectors");
    assert_eq!(TrackSource::RawMfm.name(), "raw MFM");
    assert_eq!(TrackSource::Absent.name(), "absent");
}

#[test]
fn flux_revolutions_are_merged_keeping_the_first_sound_read() {
    let t = FluxTrack {
        index: 2,
        revolutions: vec![
            Some(vec![sector(0, true, 1), sector(1, false, 2)]),
            None,
            Some(vec![sector(0, true, 3), sector(1, true, 4)]),
        ],
    };
    let a = assemble_scp(&vec![t]);
    let base = 2 * TRACK_BYTES;
    assert_eq!(a.sectors_placed, 2);
    assert_eq!(a.from_raw_tracks, 1);
    assert_eq!(a.from_sector_tracks, 0);
    assert!(a.bytes[base..base + 512].iter().all(|&b| b == 1));
    assert!(a.bytes[base + 512..base + 1024].iter().all(|&b| b == 4));
    assert_eq!(a.tracks[2].sectors, 2);
    assert_eq!(a.tracks[2].source, TrackSource::RawMfm);
}

#[test]
fn a_flux_track_that_yields_nothing_is_recorded_as_tried() {
    let a = assemble_scp(&vec![FluxTrack { index: 4, revolutions: vec![None] }]);
    assert!(a.is_empty());
    assert_eq!(a.tracks[4].source, TrackSource::RawMfm);
    assert_eq!(a.tracks.len(), 160);
    let far = assemble_scp(&vec![FluxTrack { index: 200, revolutions: vec![] }]);
    assert_eq!(far.tracks, blank_tracks());
}

#[test]
fn a_sector_written_twice_is_one_sector_of_the_disk() {
    let mut copies: Vec<DecodedSector> = (0..11).map(|n| sector(n, true, n + 1)).collect();
    copies.push(sector(4, true, 0xEE));
    let a = assemble(&vec![TrackInput { index: 0, data: Some(TrackData::RawMfm(copies)) }]);
    assert_eq!(a.sectors_placed, 11);
    assert_eq!(a.tracks[0].sectors, 11);
    assert!(a.bytes[4 * 512..5 * 512].iter().all(|&b| b == 0xEE));
    assert!(a.sectors_placed <= a.sectors_total);
}

#[test]
fn a_whole_disk_of_repeated_copies_never_exceeds_the_disk() {
    let tracks: Vec<TrackInput> = (0..160)
        .map(|i| {
            let mut copies: Vec<DecodedSector> = (0..11).map(|n| sector(n, true, 1)).collect();
            copies.push(sector(0, true, 2));
            TrackInput { index: i, data: Some(TrackData::RawMfm(copies)) }
        })
        .collect();
    let a = assemble(&tracks);
    assert_eq!(a.sectors_placed, 1760);
    assert_eq!(a.sectors_total, 1760);
    assert_eq!(a.percent_complete(), 100);
}

#[test]
fn a_track_listed_twice_counts_its_sectors_once() {
    let a = assemble(&vec![
        TrackInput { index: 7, data: Some(TrackData::Sectors(vec![1u8; TRACK_BYTES])) },
        TrackInput { index: 7, data: Some(TrackData::RawMfm(vec![sector(3, true, 9)])) },
    ]);
    assert_eq!(a.sectors_placed, 11);
    assert_eq!(a.tracks[7].sectors, 1);
    assert_eq!(a.tracks[7].source, TrackSource::RawMfm);
    let f = assemble_scp(&vec![
        FluxTrack { index: 1, revolutions: vec![Some(vec![sector(0, true, 1), sector(1, true, 1)])] },
        FluxTrack { index: 1, revolutions: vec![Some(vec![sector(1, true, 2), sector(2, true, 2)])] },
    ]);
    assert_eq!(f.sectors_placed, 3);
    assert_eq!(f.tracks[1].sectors, 2);
}
