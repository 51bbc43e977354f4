use lib::health::{
    cross_check_bitmap, examine, rank_findings, scan_tree, severity_of, str_is, BitmapFacts,
    EntryClass, FileContents, Finding, Health, Mount, Severity, TreeEntry, Walked,
};
use lib::inspect::Fault;

fn finding(code: &'static str, severity: Severity) -> Finding {
    Finding::new(code, severity, format!("{code} happened"))
}

#[test]
fn severities_read_as_stable_words_and_rank_in_order() {
    assert_eq!(Severity::Info.as_str(), "info");
    assert_eq!(Severity::Warning.as_str(), "warning");
    assert_eq!(Severity::Error.as_str(), "error");
    assert!(Severity::Info.rank() < Severity::Warning.rank());
    assert!(Severity::Warning.rank() < Severity::Error.rank());
}

#[test]
fn inspection_faults_are_graded_by_code() {
    assert_eq!(severity_of("datestamp-day-zero"), Severity::Info);
    assert_eq!(severity_of("datestamp-minutes-range"), Severity::Info);
    assert_eq!(severity_of("datestamp-ticks-range"), Severity::Info);
    assert_eq!(severity_of("rootblock-checksum"), Severity::Error);
    assert_eq!(severity_of("bitmap-flag-clear"), Severity::Warning);
    assert_eq!(severity_of("dostype-unknown-bits"), Severity::Warning);
    assert_eq!(severity_of(""), Severity::Warning);
}

#[test]
fn string_comparison_is_exact() {
    assert!(str_is("abc", "abc"));
    assert!(!str_is("abc", "abd"));
    assert!(!str_is("abc", "ab"));
    assert!(!str_is("", "a"));
    assert!(str_is("", ""));
}

#[test]
fn a_finding_can_name_its_block() {
    let f = finding("x", Severity::Warning).at(881);
    assert_eq!(f.block, Some(881));
    assert_eq!(f.code, "x");
}

#[test]
fn the_bitmap_cross_check_counts_both_directions() {
    let facts = BitmapFacts {
        flagged_valid: false,
        bad_checksums: vec![901],
        incomplete: true,
        blocks: vec![900],
        allocated: vec![880, 881, 900, 950],
        covered: 1758,
    };
    let mut findings = Vec::new();
    // The tree reached 881 and 882; the root and the bitmap block are overhead.
    let h = cross_check_bitmap(880, &vec![881, 882, 881], &facts, &mut findings);
    assert_eq!(h.marked_used, 4);
    assert_eq!(h.actually_used, 4);
    assert_eq!(h.referenced_but_free, 1, "882 is used but marked free");
    assert_eq!(h.orphaned, 1, "950 is marked but unreachable");
    assert_eq!(h.covered, 1758);
    assert!(!h.flagged_valid);
    let codes: Vec<&str> = findings.iter().map(|f| f.code).collect();
    assert_eq!(
        codes,
        vec![
            "bitmap-flag-clear",
            "bitmap-checksum",
            "bitmap-incomplete",
            "referenced-but-free",
            "orphaned-blocks"
        ]
    );
    assert_eq!(findings[1].block, Some(901));
    assert_eq!(findings[3].severity, Severity::Error);
    assert!(findings[3].message.starts_with("1 blocks are in use by files but marked free"));
    assert!(findings[4].message.starts_with("1 blocks are marked in use but unreachable"));
}

#[test]
fn a_consistent_bitmap_reports_nothing() {
    let facts = BitmapFacts {
        flagged_valid: true,
        bad_checksums: vec![],
        incomplete: false,
        blocks: vec![881],
        allocated: vec![880, 881, 882],
        covered: 1758,
    };
    let mut findings = Vec::new();
    let h = cross_check_bitmap(880, &vec![882], &facts, &mut findings);
    assert!(findings.is_empty());
    assert_eq!(h.referenced_but_free, 0);
    assert_eq!(h.orphaned, 0);
    assert_eq!(h.actually_used, 3);
}

fn file(path: &str, block: u32, blocks: Option<Vec<u32>>, contents: Result<FileContents, String>) -> TreeEntry {
    TreeEntry {
        path: path.to_owned(),
        block,
        class: EntryClass::File,
        checksum_valid: true,
        data_blocks: blocks,
        contents,
    }
}

fn read(recovered: u64, declared: u32) -> FileContents {
    FileContents {
        recovered,
        declared_size: declared,
        short: recovered < u64::from(declared),
        faults: vec![],
        exceeded_volume: false,
    }
}

#[test]
fn a_block_claimed_by_two_files_is_cross_linked() {
    let walked = Some(Walked {
        entries: vec![
            TreeEntry {
                path: "s".to_owned(),
                block: 881,
                class: EntryClass::Directory,
                checksum_valid: true,
                data_blocks: None,
                contents: Err("a directory".to_owned()),
            },
            file("s/a", 882, Some(vec![883, 884]), Ok(read(10, 10))),
            file("b", 885, Some(vec![884]), Ok(read(5, 5))),
        ],
        hit_limit: false,
    });
    let mut findings = Vec::new();
    let scan = scan_tree(880, &walked, &mut findings);
    assert_eq!(scan.directories, 1);
    assert_eq!(scan.files, 2);
    assert_eq!(scan.bytes, 15);
    let mut used = scan.referenced.clone();
    used.sort();
    assert_eq!(used, vec![880, 881, 883, 884]);
    assert_eq!(findings.len(), 1);
    assert_eq!(findings[0].code, "cross-linked-block");
    assert_eq!(findings[0].message, "block shared by s/a and b");
    assert_eq!(findings[0].block, Some(884));
    assert_eq!(findings[0].severity, Severity::Error);
}

#[test]
fn a_file_listing_a_block_twice_is_not_cross_linked_with_itself() {
    let walked = Some(Walked {
        entries: vec![file("a", 882, Some(vec![883, 883]), Ok(read(1, 1)))],
        hit_limit: false,
    });
    let mut findings = Vec::new();
    let _ = scan_tree(880, &walked, &mut findings);
    assert!(findings.is_empty());
}

#[test]
fn what_reading_a_file_finds_is_reported() {
    let mut broken = file(
        "c",
        890,
        None,
        Ok(FileContents {
            recovered: 100,
            declared_size: 400,
            short: true,
            faults: vec![(891, "data block 2 names another file".to_owned())],
            exceeded_volume: true,
        }),
    );
    broken.checksum_valid = false;
    let walked = Some(Walked {
        entries: vec![broken, file("d", 892, None, Err("no data blocks".to_owned()))],
        hit_limit: true,
    });
    let mut findings = Vec::new();
    let scan = scan_tree(880, &walked, &mut findings);
    assert_eq!(scan.bytes, 100);
    let got: Vec<(&str, String, Option<u32>)> =
        findings.iter().map(|f| (f.code, f.message.clone(), f.block)).collect();
    assert_eq!(
        got,
        vec![
            ("walk-capped", "the tree walk hit its structural cap \u{2014} cycle detection failed".to_owned(), None),
            ("entry-checksum", "c: file header checksum does not match".to_owned(), Some(890)),
            ("file-short", "c: recovered 100 of 400 declared bytes".to_owned(), Some(890)),
            ("data-block-structure", "c: data block 2 names another file".to_owned(), Some(891)),
            ("file-exceeds-volume", "c: read stopped at the volume's size".to_owned(), Some(890)),
            ("file-unreadable", "d: no data blocks".to_owned(), Some(892)),
        ]
    );
}

#[test]
fn an_unwalkable_tree_is_an_error() {
    let mut findings = Vec::new();
    let scan = scan_tree(880, &None, &mut findings);
    assert_eq!(scan.referenced, vec![880]);
    assert_eq!(findings.len(), 1);
    assert_eq!(findings[0].code, "tree-unreadable");
    assert_eq!(findings[0].severity, Severity::Error);
}

#[test]
fn bytes_recovered_saturate() {
    let walked = Some(Walked {
        entries: vec![
            file("a", 1, None, Ok(read(u64::MAX, 0))),
            file("b", 2, None, Ok(read(5, 0))),
        ],
        hit_limit: false,
    });
    let mut findings = Vec::new();
    assert_eq!(scan_tree(880, &walked, &mut findings).bytes, u64::MAX);
}

#[test]
fn findings_are_ranked_worst_first_keeping_their_order() {
    let ranked = rank_findings(vec![
        finding("i1", Severity::Info),
        finding("w1", Severity::Warning),
        finding("e1", Severity::Error),
        finding("w2", Severity::Warning),
        finding("e2", Severity::Error),
    ]);
    let codes: Vec<&str> = ranked.iter().map(|f| f.code).collect();
    assert_eq!(codes, vec!["e1", "e2", "w1", "w2", "i1"]);
}

fn faults() -> Vec<Fault> {
    vec![
        Fault { code: "datestamp-day-zero", message: "created datestamp: the day is zero".to_owned() },
        Fault { code: "bitmap-flag-clear", message: "stale".to_owned() },
    ]
}

#[test]
fn an_image_with_no_geometry_is_a_finding_not_an_error() {
    let h = examine(&faults(), &None, &Mount::NoGeometry);
    let codes: Vec<&str> = h.findings.iter().map(|f| f.code).collect();
    assert_eq!(codes, vec!["bitmap-flag-clear", "datestamp-day-zero", "container-unsupported"]);
    assert_eq!(h.findings[2].message, "no geometry could be established");
    assert!(h.findings.windows(2).all(|w| w[0].severity >= w[1].severity));
    assert!(h.bitmap.is_none());
    let reason = Some("a flux capture holds track timings".to_owned());
    let h = examine(&vec![], &reason, &Mount::NoVolume);
    assert_eq!(h.findings[0].code, "no-volume");
    assert_eq!(h.findings[0].message, "a flux capture holds track timings");
    assert_eq!(h.findings[0].severity, Severity::Info);
    let h = examine(&vec![], &None, &Mount::Truncated);
    assert_eq!(h.findings[0].code, "image-truncated");
    assert_eq!(h.worst(), Some(Severity::Error));
}

#[test]
fn a_mounted_volume_is_scanned_and_ranked() {
    let mount = Mount::Mounted {
        root: 880,
        walked: Some(Walked { entries: vec![file("a", 882, Some(vec![883]), Ok(read(3, 3)))], hit_limit: false }),
        bitmap: Some(BitmapFacts {
            flagged_valid: true,
            bad_checksums: vec![],
            incomplete: false,
            blocks: vec![881],
            allocated: vec![880, 881],
            covered: 1758,
        }),
    };
    let h = examine(&faults(), &None, &mount);
    assert_eq!(h.files, 1);
    assert_eq!(h.bytes_recovered, 3);
    let b = h.bitmap.clone().expect("the bitmap was read");
    assert_eq!(b.referenced_but_free, 1, "883 is used but marked free");
    let codes: Vec<&str> = h.findings.iter().map(|f| f.code).collect();
    assert_eq!(codes, vec!["referenced-but-free", "bitmap-flag-clear", "datestamp-day-zero"]);
    assert_eq!(h.counts(), (1, 1, 1));
    assert!(!h.is_sound());
}

#[test]
fn soundness_means_nothing_worse_than_information() {
    let sound = Health { bitmap: None, directories: 0, files: 0, bytes_recovered: 0, findings: vec![finding("i", Severity::Info)] };
    assert!(sound.is_sound());
    assert_eq!(sound.worst(), Some(Severity::Info));
    let empty = Health { bitmap: None, directories: 0, files: 0, bytes_recovered: 0, findings: vec![] };
    assert!(empty.is_sound());
    assert_eq!(empty.worst(), None);
    assert_eq!(empty.counts(), (0, 0, 0));
}

fn unmountable() -> lib::inspect::Inspection {
    let detection = lib::inspect::Detection {
        kind: lib::convert::Kind::Dms,
        label: "DMS archive".to_owned(),
        has_bootblock: false,
        evidence: vec![],
    };
    lib::inspect::Inspection::unreadable_container(detection, 10, None, None, None, None)
}

#[test]
fn the_report_as_json() {
    let h = Health {
        bitmap: Some(lib::health::BitmapHealth {
            marked_used: 880,
            actually_used: 870,
            orphaned: 10,
            referenced_but_free: 0,
            covered: 1760,
            flagged_valid: true,
        }),
        directories: 2,
        files: 3,
        bytes_recovered: 4096,
        findings: vec![finding("orphaned-blocks", Severity::Warning).at(9)],
    };
    let i = unmountable();
    let image = i.to_json().to_json();
    let json = h.to_json(&i).to_json();
    assert_eq!(
        json,
        "{\"image\":".to_owned() + &image + ",\"tree\":{\"directories\":2,\"files\":3,\"bytes_recovered\":4096},\
\"bitmap\":{\"marked_used\":880,\"actually_used\":870,\"orphaned\":10,\"referenced_but_free\":0,\
\"flagged_valid\":true,\"covered\":1760,\"fill_percent\":50},\
\"summary\":{\"info\":0,\"warning\":1,\"error\":0,\"worst\":\"warning\"},\
\"findings\":[{\"code\":\"orphaned-blocks\",\"severity\":\"warning\",\"message\":\"orphaned-blocks happened\",\"block\":9}]}"
    );
}

#[test]
fn fill_percent_of_an_empty_bitmap_is_zero() {
    let h = Health {
        bitmap: Some(lib::health::BitmapHealth {
            marked_used: 5,
            actually_used: 5,
            orphaned: 0,
            referenced_but_free: 0,
            covered: 0,
            flagged_valid: true,
        }),
        directories: 0,
        files: 0,
        bytes_recovered: 0,
        findings: vec![],
    };
    let json = h.to_json(&unmountable()).to_json();
    assert!(json.contains("\"fill_percent\":0"), "{json}");
    assert!(json.contains("\"worst\":null"), "{json}");
}

#[test]
fn a_health_report_carries_the_inspection_it_was_made_from() {
    let detection = lib::inspect::Detection {
        kind: lib::convert::Kind::Dms,
        label: "DMS archive".to_owned(),
        has_bootblock: false,
        evidence: vec![],
    };
    let i = lib::inspect::Inspection::unreadable_container(detection, 10, None, None, None, None);
    let h = examine(&vec![], &None, &Mount::NoGeometry);
    let image = i.to_json().to_json();
    let report = h.to_json(&i).to_json();
    assert!(report.starts_with(&format!("{{\"image\":{image},\"tree\":")));
}
