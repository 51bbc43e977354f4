use lib::cli::{
    check_exit_code, consolidation_lines, info_exit_code, report_text, select_partition, diff_lines, list_lines, parse_args, refuse, report_health,
    split_tracks, summarise, target_name, Format, LinkTarget, ListedEntry, EXIT_CLEAN,
    EXIT_DATA_AT_RISK, EXIT_FAULTS, EXIT_NO_VOLUME, EXIT_USAGE,
};
use lib::consolidate::{consolidate, diff};
use lib::convert::{Conversion, Kind};
use lib::inspect::{Detection, Inspection, RootFacts, VolumeInfo};
use lib::health::{BitmapHealth, DirCacheHealth, Examined, Finding, Health, Severity};

fn args(words: &[&str]) -> Vec<String> {
    words.iter().map(|w| w.to_string()).collect()
}

/// The exit code a command line gets when it cannot be read.
fn usage_code(words: &[&str]) -> u8 {
    match parse_args(args(words)) {
        Ok(_) => EXIT_CLEAN,
        Err(_) => EXIT_USAGE,
    }
}

#[test]
fn an_unknown_format_is_a_usage_error() {
    assert_eq!(usage_code(&["info", "--format=yaml", "badfmt.adf"]), 2);
    assert_eq!(usage_code(&["info", "--wat", "badopt.adf"]), 2);
}

#[test]
fn options_can_stand_anywhere() {
    let a = parse_args(args(&["--json", "ls", "disk.adf", "--partition=DH0", "s"])).unwrap();
    assert_eq!(a.command, "ls");
    assert_eq!(a.positional, vec!["disk.adf", "s"]);
    assert_eq!(a.format, Format::Json);
    assert_eq!(a.partition.as_deref(), Some("DH0"));
    assert_eq!(a.output, None);
    assert!(!a.raw);
}

#[test]
fn the_last_format_wins_and_text_is_the_default() {
    assert_eq!(parse_args(args(&["info", "x"])).unwrap().format, Format::Text);
    assert_eq!(parse_args(args(&["--format=json", "--format=text", "info"])).unwrap().format, Format::Text);
    assert_eq!(parse_args(args(&["--format=json", "info"])).unwrap().format, Format::Json);
}

#[test]
fn output_and_raw_are_read() {
    let a = parse_args(args(&["consolidate", "a", "b", "c", "--output=merged.adf", "--raw"])).unwrap();
    assert_eq!(a.output.as_deref(), Some("merged.adf"));
    assert!(a.raw);
    assert_eq!(a.positional.len(), 3);
}

#[test]
fn the_first_wrong_option_is_the_complaint() {
    assert_eq!(parse_args(args(&["info", "--format=yaml"])).unwrap_err(), "unknown format: yaml");
    assert_eq!(parse_args(args(&["--wat", "--format=yaml"])).unwrap_err(), "unknown option: --wat");
    assert_eq!(parse_args(args(&["--format=--format=x"])).unwrap_err(), "unknown format: x");
}

#[test]
fn help_and_version_are_words_not_errors() {
    let a = parse_args(args(&["--version"])).unwrap();
    assert_eq!(a.command, "--version");
    let b = parse_args(args(&["-h"])).unwrap();
    assert_eq!(b.command, "-h");
    let empty = parse_args(vec![]).unwrap();
    assert_eq!(empty.command, "");
    assert!(empty.positional.is_empty());
}

#[test]
fn track_numbers_read_as_ranges() {
    assert_eq!(summarise(&vec![0, 1, 2, 5, 7, 8]), "0-2, 5, 7-8");
    assert_eq!(summarise(&vec![3]), "3");
    assert_eq!(summarise(&vec![]), "");
    assert_eq!(summarise(&vec![4, 3]), "4, 3");
}

#[test]
fn check_exits_by_its_worst_finding() {
    assert_eq!(check_exit_code(Some(Severity::Error), true), EXIT_DATA_AT_RISK);
    assert_eq!(check_exit_code(Some(Severity::Warning), true), EXIT_FAULTS);
    assert_eq!(check_exit_code(Some(Severity::Info), true), EXIT_CLEAN);
    assert_eq!(check_exit_code(None, true), EXIT_CLEAN);
    assert_eq!(check_exit_code(None, false), EXIT_NO_VOLUME);
    assert_eq!(check_exit_code(Some(Severity::Error), false), EXIT_DATA_AT_RISK);
}

#[test]
fn a_health_report_reads_section_by_section() {
    let h = Health {
        bitmap: Some(BitmapHealth {
            marked_used: 100,
            actually_used: 90,
            orphaned: 10,
            referenced_but_free: 2,
            covered: 1758,
            flagged_valid: false,
        }),
        directories: 3,
        files: 12,
        bytes_recovered: 4096,
        findings: vec![
            Finding::new("bitmap-referenced-free", Severity::Error, "live data marked free".to_owned()).at(900),
            Finding::new("datestamp-day-zero", Severity::Info, "unset".to_owned()),
        ],
    };
    let examined = Some(Examined { volume: "Work \"1\"".to_owned(), partition: None, rootblock: 880 });
    let dircache = Some(DirCacheHealth { records: 5, blocks: 2, directories: 1, disagreements: 0 });
    let lines = report_health("disk.adf", "ADF", &examined, &dircache, &h);
    assert_eq!(
        lines,
        vec![
            "disk.adf",
            "  container   ADF",
            "  volume      \"Work \\\"1\\\"\"  (rootblock 880)",
            "  contents    12 files, 3 directories, 4096 bytes recovered",
            "  dircache",
            "    cached      5 records in 2 blocks across 1 directories",
            "    cross-check agrees with the directory entries",
            "  bitmap",
            "    flag        CLEAR \u{2014} may be stale",
            "    usage       100 blocks marked used, 90 reachable, 5% full",
            "    orphaned    10 blocks",
            "    AT RISK     2 blocks in use but marked free",
            "  findings    1 error, 0 warning, 1 info",
            "    !! [bitmap-referenced-free] live data marked free [block 900]",
            "       [datestamp-day-zero] unset",
        ]
    );
}

#[test]
fn a_device_with_no_volume_says_none() {
    let h = Health { bitmap: None, directories: 0, files: 0, bytes_recovered: 0, findings: vec![] };
    let lines = report_health("hd.hdf", "RDB", &None, &None, &h);
    assert_eq!(lines, vec!["hd.hdf", "  container   RDB", "  volume      none", "  findings    none"]);
}

fn entry(name: &str, size: Option<u32>) -> ListedEntry {
    ListedEntry {
        name: name.to_owned(),
        size,
        kind: "dir".to_owned(),
        protection: "----rwed".to_owned(),
        altered: "1990-01-01 00:00:00".to_owned(),
        link: None,
        comment: String::new(),
    }
}

#[test]
fn a_listing_orders_names_regardless_of_case() {
    let mut link = entry("Link", None);
    link.link = Some(LinkTarget::Broken("no target".to_owned()));
    let mut commented = entry("b", Some(1234));
    commented.comment = "hi".to_owned();
    let lines = list_lines(vec![entry("C", Some(5)), commented, entry("a", None), link]);
    assert_eq!(
        lines,
        vec![
            "      dir  ----rwed  1990-01-01 00:00:00  a",
            "     1234  ----rwed  1990-01-01 00:00:00  b   ; hi",
            "        5  ----rwed  1990-01-01 00:00:00  C",
            "      dir  ----rwed  1990-01-01 00:00:00  Link  -> BROKEN (no target)",
            "4 entries",
        ]
    );
    assert_eq!(list_lines(vec![]), vec!["0 entries"]);
}

#[test]
fn diff_text_and_exit_code() {
    let a = vec![0u8; 22 * 512];
    let (lines, code) = diff_lines(&diff(&a, &a).unwrap());
    assert_eq!(lines, vec!["  identical \u{2014} 22 sectors compared"]);
    assert_eq!(code, EXIT_CLEAN);
    let mut b = a.clone();
    b[0] = 1;
    b[12 * 512] = 1;
    b[12 * 512 + 1] = 1;
    let (lines, code) = diff_lines(&diff(&a, &b).unwrap());
    assert_eq!(lines, vec!["  2 of 22 sectors differ, 3 bytes", "  tracks  0-1"]);
    assert_eq!(code, EXIT_FAULTS);
}

#[test]
fn consolidation_text_and_exit_code() {
    let a = vec![0u8; 11 * 512];
    let mut b = a.clone();
    b[3 * 512] = 9;
    let (lines, code) = consolidation_lines(&consolidate(&[a.clone(), b]).unwrap());
    assert_eq!(
        lines,
        vec![
            "2 dumps, 11 sectors each",
            "  agreed      10 sectors",
            "  resolved    0 sectors by plurality",
            "  unresolved  1 sectors with no majority",
            "              (two dumps cannot vote \u{2014} every difference ties)",
            "  tracks that disagree",
            "      0  sectors [3], 1 unresolved",
            "",
            "This reports agreement between dumps, not which dump is correct.",
        ]
    );
    assert_eq!(code, EXIT_FAULTS);
    let (_, code) = consolidation_lines(&consolidate(&[a.clone(), a]).unwrap());
    assert_eq!(code, EXIT_CLEAN);
}

#[test]
fn only_a_lossless_conversion_goes_ahead() {
    assert_eq!(refuse(Conversion::Lossless), None);
    assert_eq!(
        refuse(Conversion::Lossy { lost: "flux" }),
        Some(vec![
            "ade: refusing to convert: this would discard flux".to_owned(),
            "ade: lossy conversion is not available yet \u{2014} no flag enables it".to_owned(),
        ])
    );
    assert_eq!(refuse(Conversion::Refused { why: "no" }), Some(vec![]));
    assert_eq!(target_name(true, "ADF"), "extended ADF (raw MFM tracks)");
    assert_eq!(target_name(false, "ADF"), "ADF");
}

#[test]
fn an_image_is_cut_into_whole_tracks() {
    let image: Vec<u8> = (0..22 * 512).map(|i| (i / 5632) as u8).collect();
    let tracks = split_tracks(&image, 11).unwrap();
    assert_eq!(tracks.len(), 2);
    assert!(tracks[1].iter().all(|&b| b == 1));
    assert_eq!(split_tracks(&image, 22).unwrap().len(), 1);
    assert_eq!(
        split_tracks(&image[..1000], 11).unwrap_err(),
        "not a whole number of 11-sector tracks \u{2014} 1000 bytes"
    );
    // Zero sectors a track is read as one.
    assert_eq!(split_tracks(&image, 0).unwrap().len(), 22);
    assert!(split_tracks(&[], 11).unwrap().is_empty());
}

fn parts(names: &[&str]) -> Vec<String> {
    names.iter().map(|n| n.to_string()).collect()
}

#[test]
fn with_no_selection_the_first_partition_is_used() {
    assert_eq!(select_partition(&parts(&["DH0", "DH1"]), None), Ok(Some(0)));
    assert_eq!(select_partition(&parts(&[]), None), Ok(None));
}

#[test]
fn a_partition_is_chosen_by_name_ignoring_case_or_by_index() {
    let p = parts(&["DH0", "Work", "1"]);
    assert_eq!(select_partition(&p, Some("work")), Ok(Some(1)));
    assert_eq!(select_partition(&p, Some("dh0")), Ok(Some(0)));
    // A name wins over an index that spells the same.
    assert_eq!(select_partition(&p, Some("1")), Ok(Some(2)));
    assert_eq!(select_partition(&p, Some("2")), Ok(Some(2)));
    assert_eq!(select_partition(&p, Some("+0")), Ok(Some(0)));
}

#[test]
fn an_unknown_partition_names_the_ones_that_exist() {
    let p = parts(&["DH0", "DH1"]);
    assert_eq!(
        select_partition(&p, Some("DH7")),
        Err("no partition \"DH7\"; this device has DH0, DH1".to_owned())
    );
    assert_eq!(
        select_partition(&p, Some("2")),
        Err("no partition \"2\"; this device has DH0, DH1".to_owned())
    );
    assert!(select_partition(&p, Some("99999999999999999999999")).is_err());
    assert!(select_partition(&p, Some("-1")).is_err());
    assert!(select_partition(&p, Some("+")).is_err());
}

#[test]
fn naming_a_partition_without_a_table_is_an_error() {
    assert_eq!(
        select_partition(&parts(&[]), Some("DH0")),
        Err("no partition table, so no partition \"DH0\"".to_owned())
    );
}

#[test]
fn json_and_text_agree_on_whether_an_image_is_faulty() {
    let detection = Detection {
        kind: Kind::Adf { cylinders: 80, sectors: 11 },
        label: "ADF".to_owned(),
        has_bootblock: true,
        evidence: vec![],
    };
    let mut i = Inspection::unreadable_container(detection, 901120, None, None, None, None);
    i.volume_absent = None;
    i.volume = Some(VolumeInfo {
        rootblock_at: 880,
        name: b"Work".to_vec(),
        hash_table_size: 72,
        created: "1990-01-01".to_owned(),
        modified: "1990-01-01".to_owned(),
        root_altered: "1990-01-01".to_owned(),
        facts: RootFacts {
            checksum_valid: true,
            bitmap_flag_valid: false,
            declared_name_len: 4,
            created: vec![],
            modified: vec![],
            root_altered: vec![],
        },
    });
    let text = report_text("work.adf", &i);
    let json = i.to_json().to_json();
    assert_eq!(
        text.last().unwrap(),
        "    ! [bitmap-flag-clear] bitmap-valid flag is clear \u{2014} the map may be stale (AV-003)"
    );
    assert!(json.ends_with(
        "\"faults\":[{\"code\":\"bitmap-flag-clear\",\"message\":\"bitmap-valid flag is clear \\u2014 the map may be stale (AV-003)\"}]}"
    ));
    assert_eq!(info_exit_code(&i), EXIT_FAULTS);

    i.volume.as_mut().unwrap().facts.bitmap_flag_valid = true;
    let text = report_text("work.adf", &i);
    assert_eq!(text.last().unwrap(), "  faults      none");
    assert!(i.to_json().to_json().ends_with("\"faults\":[]}"));
    assert_eq!(info_exit_code(&i), EXIT_CLEAN);
}
