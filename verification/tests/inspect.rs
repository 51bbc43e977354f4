use lib::convert::Kind;
use lib::inspect::{inspection_of, BootText, RdbInfo, VolumeInfo};
use lib::inspect::{
    faults, faults_to_json, field_text, geometry_for, partition_block_size, percent_of,
    entry_to_json, scp_table_faults, unreadable, EntryFacts, AssemblyInfo, DateFault, Description, Detection,
    FluxTrackRead, Geometry, Inspection, RootFacts, TableTrack, TrackDecode, TrackTable,
    FLOPPY_RESERVED, MAX_DESCRIPTION,
};

fn sound_root() -> RootFacts {
    RootFacts {
        checksum_valid: true,
        bitmap_flag_valid: true,
        declared_name_len: 5,
        created: vec![],
        modified: vec![],
        root_altered: vec![],
    }
}

fn table(sectors: usize, raw: usize, standard: usize, sound: usize) -> TrackTable {
    TrackTable {
        declared: 160,
        sectors,
        raw_mfm: raw,
        empty: 0,
        present: 160,
        faults: vec![],
        standard_tracks: standard,
        sound_sectors: sound,
        stray_syncs: 0,
        illegally_encoded_sectors: 0,
    }
}

#[test]
fn a_sound_image_has_no_faults() {
    assert!(faults(Some(0), Some(&sound_root())).is_empty());
    assert!(faults(None, None).is_empty());
}

#[test]
fn undocumented_dostype_bits_are_a_fault() {
    let fs = faults(Some(0x0A), None);
    assert_eq!(fs.len(), 1);
    assert_eq!(fs[0].code, "dostype-unknown-bits");
    assert_eq!(fs[0].message, "dostype carries undocumented bits 0x0a");
}

#[test]
fn every_rootblock_fault_is_reported_in_order() {
    let root = RootFacts {
        checksum_valid: false,
        bitmap_flag_valid: false,
        declared_name_len: 31,
        created: vec![DateFault::DayZero],
        modified: vec![DateFault::MinutesOutOfRange, DateFault::TicksOutOfRange],
        root_altered: vec![],
    };
    let fs = faults(None, Some(&root));
    let codes: Vec<&str> = fs.iter().map(|f| f.code).collect();
    assert_eq!(
        codes,
        vec![
            "rootblock-checksum",
            "bitmap-flag-clear",
            "name-length-overflow",
            "datestamp-day-zero",
            "datestamp-minutes-range",
            "datestamp-ticks-range",
        ]
    );
    assert_eq!(fs[2].message, "volume name length claims 31 bytes in a 30-byte field");
    assert_eq!(fs[3].message, "created datestamp: the day is zero");
    assert_eq!(fs[4].message, "modified datestamp: the minute of the day is out of range");
}

#[test]
fn a_thirty_byte_name_is_legal() {
    let mut root = sound_root();
    root.declared_name_len = 30;
    assert!(faults(None, Some(&root)).is_empty());
}

#[test]
fn faults_serialise_as_code_and_message() {
    let fs = faults(None, Some(&RootFacts { checksum_valid: false, ..sound_root() }));
    assert_eq!(
        faults_to_json(&fs).to_json(),
        "[{\"code\":\"rootblock-checksum\",\"message\":\"rootblock checksum does not match\"}]"
    );
    assert_eq!(faults_to_json(&vec![]).to_json(), "[]");
}

#[test]
fn date_fault_codes_are_stable() {
    assert_eq!(DateFault::DayZero.code(), "datestamp-day-zero");
    assert_eq!(DateFault::MinutesOutOfRange.code(), "datestamp-minutes-range");
    assert_eq!(DateFault::TicksOutOfRange.code(), "datestamp-ticks-range");
}

#[test]
fn percentages_round_down_and_survive_an_empty_whole() {
    assert_eq!(percent_of(1, 3), 33);
    assert_eq!(percent_of(2, 3), 66);
    assert_eq!(percent_of(1760, 1760), 100);
    assert_eq!(percent_of(5, 0), 0);
    assert_eq!(percent_of(0, 10), 0);
}

#[test]
fn a_huge_part_saturates_instead_of_overflowing() {
    assert_eq!(percent_of(usize::MAX, usize::MAX), usize::MAX / usize::MAX);
    assert_eq!(percent_of(usize::MAX, 1), usize::MAX);
}

#[test]
fn assembly_reports_how_complete_it_is() {
    let a = AssemblyInfo {
        sectors_placed: 880,
        sectors_total: 1760,
        from_sector_tracks: 40,
        from_raw_tracks: 40,
    };
    assert_eq!(a.percent_complete(), 50);
    assert_eq!(
        a.to_json().to_json(),
        "{\"sectors_placed\":880,\"sectors_total\":1760,\"from_sector_tracks\":40,\
         \"from_raw_tracks\":40,\"percent_complete\":50}"
    );
}

#[test]
fn a_description_is_latin1_and_capped() {
    let d = Description::read("FILE_ID.DIZ".to_owned(), 880, &[b'H', b'i', 0xE9], 3);
    assert_eq!(d.text, "Hi\u{e9}");
    assert!(!d.truncated);
    assert_eq!(d.block, 880);
    assert_eq!(
        d.to_json().to_json(),
        "{\"file\":\"FILE_ID.DIZ\",\"block\":880,\"text\":\"Hi\\u00e9\",\"declared_size\":3,\"truncated\":false}"
    );

    let long = vec![b'x'; MAX_DESCRIPTION + 10];
    let d = Description::read("f".to_owned(), 1, &long, 99999);
    assert!(d.truncated);
    assert_eq!(d.text.len(), MAX_DESCRIPTION);
    assert_eq!(d.declared_size, 99999);
}

#[test]
fn drive_fields_are_trimmed_of_padding() {
    // A NUL is not padding: only white space is trimmed.
    assert_eq!(field_text(b"  QUANTUM \0"), "QUANTUM \u{0}");
    assert_eq!(field_text(b"  QUANTUM   "), "QUANTUM");
    assert_eq!(field_text(b"    "), "");
    assert_eq!(field_text(b""), "");
    assert_eq!(field_text(&[0xA0, b'A', b' ', b'B', 0x09]), "A B");
}

#[test]
fn a_partition_without_a_block_size_reads_512() {
    assert_eq!(partition_block_size(0), 512);
    assert_eq!(partition_block_size(1024), 1024);
}

#[test]
fn floppy_geometry_comes_from_the_kind() {
    let g = geometry_for(Kind::Adf { cylinders: 80, sectors: 11 }, 901120).unwrap();
    assert_eq!(
        g,
        Geometry { cylinders: 80, heads: 2, sectors: 11, block_size: 512, reserved: FLOPPY_RESERVED }
    );
    assert_eq!(g.total_blocks(), 1760);
}

#[test]
fn a_hardfile_is_a_flat_run_of_blocks() {
    let g = geometry_for(Kind::Hardfile, 512 * 2048).unwrap();
    assert_eq!(g.cylinders, 2048);
    assert_eq!(g.heads, 1);
    assert_eq!(g.sectors, 1);
    assert_eq!(g.total_blocks(), 2048);
    assert_eq!(geometry_for(Kind::RigidDisk, 512 * 64 + 100).unwrap().cylinders, 64);
}

#[test]
fn a_hardfile_below_a_floppy_is_not_mounted() {
    assert_eq!(geometry_for(Kind::Hardfile, 512 * 63), None);
    assert_eq!(geometry_for(Kind::Hardfile, 512 * (u32::MAX as u64 + 1)), None);
    assert_eq!(geometry_for(Kind::Dms, 901120), None);
    assert_eq!(geometry_for(Kind::Unknown, 901120), None);
}

#[test]
fn unreadable_containers_say_why() {
    assert_eq!(
        unreadable(Kind::Unknown, "?", &None),
        "reading an unrecognised container is not implemented yet"
    );
    assert_eq!(
        unreadable(Kind::Dms, "DMS", &None),
        "reading DMS is not implemented yet"
    );
    assert_eq!(
        unreadable(Kind::ExtendedAdf { tracks: 160 }, "extended ADF", &Some(table(100, 60, 0, 0))),
        "a raw-track container holds tracks, not a volume \u{2014} 100 of its 160 tracks hold ordinary sectors, 60 hold raw MFM"
    );
    assert_eq!(
        unreadable(Kind::ExtendedAdf { tracks: 160 }, "extended ADF", &None),
        "the track table could not be read"
    );
    assert_eq!(
        unreadable(Kind::Scp, "SCP", &Some(table(0, 160, 150, 1650))),
        "a flux capture holds track timings, not a volume \u{2014} 150 of its 160 tracks decoded as ordinary AmigaDOS, yielding 1650 sound sectors"
    );
    assert_eq!(unreadable(Kind::Scp, "SCP", &None), "the SCP track table could not be read");
}

#[test]
fn flux_tables_report_unsettled_tracks_and_miscounts() {
    assert!(scp_table_faults(0, 0, 159, 160).is_empty());
    let fs = scp_table_faults(3, 0, 159, 158);
    assert_eq!(fs.len(), 2);
    assert!(fs[0].starts_with("3 tracks: the bit-cell estimate never settled"));
    assert_eq!(fs[1], "header declares tracks 0-159 (160) but the table points at 158");
    // A reversed range declares one track.
    assert_eq!(
        scp_table_faults(0, 10, 5, 2),
        vec!["header declares tracks 10-5 (1) but the table points at 2".to_owned()]
    );
    assert!(scp_table_faults(0, 10, 5, 1).is_empty());
}

fn decode(standard: bool, sound: usize) -> TrackDecode {
    TrackDecode { standard, sound, stray_syncs: 1, illegally_encoded: 2 }
}

#[test]
fn an_extended_table_counts_what_its_raw_tracks_decode_to() {
    let tracks = vec![
        TableTrack { present: true, decode: None },
        TableTrack { present: true, decode: Some(decode(true, 11)) },
        TableTrack { present: false, decode: None },
        TableTrack { present: true, decode: Some(decode(false, 4)) },
    ];
    let t = TrackTable::of_extended(&tracks, 1, 2, 1, vec!["short".to_owned()]);
    assert_eq!((t.declared, t.sectors, t.raw_mfm, t.empty, t.present), (4, 1, 2, 1, 3));
    assert_eq!((t.standard_tracks, t.sound_sectors, t.stray_syncs, t.illegally_encoded_sectors), (1, 15, 2, 4));
    assert_eq!(t.faults, vec!["short"]);
}

#[test]
fn decode_counts_saturate() {
    let big = TrackDecode { standard: true, sound: usize::MAX, stray_syncs: 0, illegally_encoded: 0 };
    let tracks = vec![TableTrack { present: true, decode: Some(big) }; 2];
    assert_eq!(TrackTable::of_extended(&tracks, 0, 2, 0, vec![]).sound_sectors, usize::MAX);
}

#[test]
fn a_flux_table_counts_empty_read_and_unsettled_tracks() {
    let tracks = vec![
        FluxTrackRead { stored: false, first: None },
        FluxTrackRead { stored: true, first: Some((true, decode(true, 11))) },
        FluxTrackRead { stored: true, first: Some((false, decode(false, 3))) },
        FluxTrackRead { stored: true, first: None },
    ];
    let t = TrackTable::of_scp(&tracks, 0, 3);
    assert_eq!((t.declared, t.sectors, t.raw_mfm, t.empty, t.present), (4, 0, 4, 1, 2));
    assert_eq!((t.standard_tracks, t.sound_sectors), (1, 14));
    assert_eq!(t.faults.len(), 1);
    assert!(t.faults[0].starts_with("1 tracks: the bit-cell estimate never settled"));
    let miscounted = TrackTable::of_scp(&tracks, 0, 79);
    assert_eq!(miscounted.faults[1], "header declares tracks 0-79 (80) but the table points at 4");
}

#[test]
fn an_unreadable_container_still_reports_what_is_known() {
    let detection = Detection {
        kind: Kind::Dms,
        label: "DMS archive".to_owned(),
        has_bootblock: false,
        evidence: vec!["DMS! magic".to_owned()],
    };
    let i = Inspection::unreadable_container(detection, 1234, None, None, None, None);
    assert_eq!(i.volume_absent.as_deref(), Some("reading DMS archive is not implemented yet"));
    assert_eq!(i.size, 1234);
    assert!(i.volume.is_none() && i.geometry.is_none() && i.partitions.is_empty());
    assert_eq!(i.detection.evidence, vec!["DMS! magic"]);
}

fn entry(is_file: bool, comment: &[u8]) -> EntryFacts {
    EntryFacts {
        name: vec![b'C', b'a', b'f', 0xE9],
        path: vec![b"s".to_vec(), vec![b'C', b'a', b'f', 0xE9]],
        kind: if is_file { "file".to_owned() } else { "dir".to_owned() },
        is_file,
        size: 1234,
        block: 900,
        parent: 880,
        protection: "----rwed".to_owned(),
        protection_bits: 0,
        altered: "1990-01-01 00:00:00".to_owned(),
        comment: comment.to_vec(),
        checksum_valid: true,
    }
}

#[test]
fn ls_json_emits_one_object_per_entry_with_latin1_names() {
    assert_eq!(
        entry_to_json(&entry(true, b"")).to_json(),
        "{\"name\":\"Caf\\u00e9\",\"path\":\"s/Caf\\u00e9\",\"kind\":\"file\",\"size\":1234,\
         \"block\":900,\"parent\":880,\"protection\":\"----rwed\",\"protection_bits\":0,\
         \"altered\":\"1990-01-01 00:00:00\",\"comment\":null,\"checksum_valid\":true}"
    );
    let dir = entry_to_json(&entry(false, b"note")).to_json();
    assert!(dir.contains("\"size\":null"));
    assert!(dir.contains("\"comment\":\"note\""));
}

fn adf_detection() -> Detection {
    Detection {
        kind: Kind::Adf { cylinders: 80, sectors: 11 },
        label: "ADF".to_owned(),
        has_bootblock: true,
        evidence: vec![],
    }
}

fn volume() -> VolumeInfo {
    VolumeInfo {
        rootblock_at: 880,
        name: b"Work".to_vec(),
        hash_table_size: 72,
        created: String::new(),
        modified: String::new(),
        root_altered: String::new(),
        facts: sound_root(),
    }
}

fn rdb() -> RdbInfo {
    RdbInfo {
        block: 0,
        checksum_valid: true,
        block_size: 512,
        cylinders: 100,
        heads: 1,
        sectors: 32,
        high_rdsk_block: 2,
        vendor: String::new(),
        product: String::new(),
        revision: String::new(),
    }
}

#[test]
fn an_inspection_takes_its_geometry_from_the_container() {
    let text = vec![BootText { offset: 12, text: "Hello".to_owned() }];
    let i = inspection_of(
        adf_detection(), 901120, None, None, text, None, None, None, false, Ok(volume()), None, None,
        vec![], vec![],
    );
    assert_eq!(i.geometry, geometry_for(Kind::Adf { cylinders: 80, sectors: 11 }, 901120));
    assert_eq!(i.volume.as_ref().map(|v| v.rootblock_at), Some(880));
    assert!(i.volume_absent.is_none());
    assert_eq!(i.boot_text.len(), 1);
    assert!(i.rdb.is_none() && i.partitions.is_empty());
}

#[test]
fn an_inspection_without_a_geometry_is_an_unreadable_container() {
    let detection = Detection {
        kind: Kind::Dms,
        label: "DMS archive".to_owned(),
        has_bootblock: false,
        evidence: vec![],
    };
    let text = vec![BootText { offset: 0, text: "ignored".to_owned() }];
    let i = inspection_of(
        detection, 1234, None, None, text, None, None, None, false, Ok(volume()), None, Some(rdb()),
        vec![], vec!["stale".to_owned()],
    );
    assert!(i.geometry.is_none() && i.volume.is_none() && i.rdb.is_none());
    assert_eq!(i.volume_absent.as_deref(), Some("reading DMS archive is not implemented yet"));
    assert!(i.boot_text.is_empty() && i.partition_faults.is_empty());
}

#[test]
fn an_image_shorter_than_its_geometry_has_no_volume() {
    let i = inspection_of(
        adf_detection(), 1000, None, None, vec![], None, None, None, true, Ok(volume()), None, None,
        vec![], vec![],
    );
    assert!(i.geometry.is_some());
    assert!(i.volume.is_none());
    assert_eq!(i.volume_absent.as_deref(), Some("image is shorter than its geometry"));
}

#[test]
fn an_inspection_reports_why_there_is_no_volume() {
    let i = inspection_of(
        adf_detection(), 901120, None, None, vec![], None, None, None, false,
        Err("no rootblock at 880".to_owned()), None, Some(rdb()), vec![], vec!["bad chain".to_owned()],
    );
    assert!(i.volume.is_none());
    assert_eq!(i.volume_absent.as_deref(), Some("no rootblock at 880"));
    assert!(i.rdb.is_some());
    assert_eq!(i.partition_faults, vec!["bad chain".to_owned()]);
}

#[test]
fn a_reassembled_container_is_mounted_as_what_it_became() {
    let detection = Detection {
        kind: Kind::ExtendedAdf { tracks: 160 },
        label: "extended ADF".to_owned(),
        has_bootblock: false,
        evidence: vec![],
    };
    let info = AssemblyInfo { sectors_placed: 1760, sectors_total: 1760, from_sector_tracks: 160, from_raw_tracks: 0 };
    let text = vec![BootText { offset: 0, text: "UAE".to_owned() }];
    let i = inspection_of(
        detection, 1_000_000, None, None, text, Some(table(160, 0, 0, 0)), None,
        Some((info, Kind::Adf { cylinders: 80, sectors: 11 }, 901120)), false, Ok(volume()), None, None,
        vec![], vec![],
    );
    assert_eq!(i.geometry, geometry_for(Kind::Adf { cylinders: 80, sectors: 11 }, 901120));
    assert_eq!(i.assembly.map(|a| a.sectors_placed), Some(1760));
    assert!(i.boot_text.is_empty());
    assert!(i.tracks.is_some());
    assert!(i.bootblock.is_none());
}

#[test]
fn a_missing_rootblock_is_reported_with_what_the_block_held() {
    assert_eq!(
        lib::inspect::no_rootblock(880, 0x2, 0xFFFF_FFFD),
        "no rootblock at block 880: type 0x2, secondary type 0xfffffffd"
    );
    assert_eq!(lib::inspect::no_rootblock(1760, 0, 0), "no rootblock at block 1760: type 0x0, secondary type 0x0");
    assert_eq!(lib::inspect::root_failure(880, false, "past the end"), "cannot read block 880: past the end");
    assert_eq!(lib::inspect::root_failure(880, true, "too short"), "cannot parse block 880: too short");
}

#[test]
fn a_device_with_a_rigid_disk_block_reports_no_bootblock() {
    let i = inspection_of(
        adf_detection(), 901120, None, None, vec![], None, None, None, false, Ok(volume()), None, Some(rdb()),
        vec![], vec![],
    );
    assert!(i.rdb.is_some() && i.bootblock.is_none());
}
