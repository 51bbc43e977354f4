use lib::batch::{
    bump, examine_one, identification_json, run, ConversionOutcome, ConvertRequest, MatchKind,
    Record, Summary,
};
use lib::convert::Kind;
use lib::convert::ConvertError;
use lib::health::{Finding, Health, Severity};

fn health(findings: Vec<Finding>) -> Health {
    Health { bitmap: None, directories: 2, files: 7, bytes_recovered: 1000, findings }
}

fn f(code: &'static str, s: Severity) -> Finding {
    Finding::new(code, s, code.to_owned())
}

fn record(path: &str, container: &str, findings: Vec<Finding>) -> Record {
    examine_one(
        path.to_owned(),
        901120,
        container.to_owned(),
        "adf",
        Some("Work".to_owned()),
        &health(findings),
    )
}

#[test]
fn counts_are_kept_in_name_order() {
    let mut v: Vec<(String, usize)> = Vec::new();
    bump(&mut v, "b");
    bump(&mut v, "a");
    bump(&mut v, "b");
    bump(&mut v, "c");
    assert_eq!(
        v,
        vec![("a".to_owned(), 1), ("b".to_owned(), 2), ("c".to_owned(), 1)]
    );
}

#[test]
fn an_examined_image_carries_its_health() {
    let r = record("x.adf", "ADF", vec![f("w", Severity::Warning), f("e", Severity::Error)]);
    assert_eq!(r.findings, vec!["w", "e"]);
    assert_eq!(r.worst, Some(Severity::Error));
    assert_eq!((r.files, r.directories, r.bytes_recovered), (7, 2, 1000));
    assert!(!r.is_sound());
    assert!(record("y.adf", "ADF", vec![f("i", Severity::Info)]).is_sound());
}

#[test]
fn an_unreadable_image_is_a_record_too() {
    let r = Record::unreadable("gone.adf".to_owned(), "no such file".to_owned());
    assert_eq!(r.container, "unreadable");
    assert_eq!(r.unreadable.as_deref(), Some("no such file"));
    assert!(!r.is_sound());
    let json = r.to_json().to_json();
    assert!(json.starts_with("{\"path\":\"gone.adf\",\"size\":0,\"container\":\"unreadable\""));
    assert!(json.ends_with("\"worst\":null,\"unreadable\":\"no such file\",\"identified\":[]}"));
}

#[test]
fn batch_summarises_a_directory() {
    let records = vec![
        record("a.adf", "ADF", vec![f("bitmap-flag-clear", Severity::Warning)]),
        record("b.adf", "ADF", vec![]),
        // The same code twice in one image counts the image once.
        record(
            "c.hdf",
            "hardfile",
            vec![f("rootblock-checksum", Severity::Error), f("rootblock-checksum", Severity::Error)],
        ),
        Record::unreadable("d.adf".to_owned(), "gone".to_owned()),
    ];
    let s = run(records);
    assert_eq!(s.examined, 4);
    assert_eq!(s.unreadable, 1);
    assert_eq!(s.mounted, 3);
    assert_eq!(s.sound, 1);
    assert_eq!(s.bytes_recovered, 3000);
    assert_eq!(
        s.containers,
        vec![("ADF".to_owned(), 2), ("hardfile".to_owned(), 1), ("unreadable".to_owned(), 1)]
    );
    assert_eq!(
        s.findings,
        vec![("bitmap-flag-clear".to_owned(), 1), ("rootblock-checksum".to_owned(), 1)]
    );
    let risky: Vec<&str> = s.at_risk().iter().map(|r| r.path.as_str()).collect();
    assert_eq!(risky, vec!["c.hdf"]);
}

#[test]
fn adding_one_at_a_time_is_the_same_as_a_run() {
    let mut s = Summary::new();
    s.add(record("a.adf", "ADF", vec![]));
    s.add(Record::unreadable("b".to_owned(), "x".to_owned()));
    let t = run(vec![record("a.adf", "ADF", vec![]), Record::unreadable("b".to_owned(), "x".to_owned())]);
    assert_eq!(s.to_json().to_json(), t.to_json().to_json());
    assert_eq!(s.examined, 2);
}

#[test]
fn the_summary_json_puts_counts_first() {
    let mut r = record("a.adf", "ADF", vec![]);
    r.conversion = Some(ConversionOutcome::declined(&ConvertError::Refused { why: "no" }));
    r.identified = vec!["Game (1990)".to_owned()];
    let s = run(vec![r]);
    assert_eq!(
        s.to_json().to_json(),
        "{\"examined\":1,\"unreadable\":0,\"mounted\":1,\"sound\":1,\"bytes_recovered\":1000,\
         \"identified\":1,\"containers\":[{\"name\":\"ADF\",\"count\":1}],\"findings\":[],\
         \"conversions\":[{\"code\":\"refused\",\"images\":1}]}"
    );
    assert_eq!(run(vec![]).examined, 0);
}

#[test]
fn a_declined_conversion_carries_its_code_and_reason() {
    let o = ConversionOutcome::declined(&ConvertError::Lossy { lost: "flux" });
    assert_eq!(o.code, "lossy");
    assert_eq!(o.written, None);
    assert_eq!(o.reason.as_deref(), Some("this would discard flux"));
    assert!(!o.wrote());
    assert_eq!(
        o.to_json().to_json(),
        "{\"code\":\"lossy\",\"written\":null,\"reason\":\"this would discard flux\"}"
    );
    let done = ConversionOutcome { code: "converted", written: Some("out.adf".to_owned()), reason: None };
    assert!(done.wrote());
}

#[test]
fn every_match_is_listed_and_the_kind_says_what_they_mean() {
    assert_eq!(MatchKind::Duplicated.code(), "duplicated");
    assert_eq!(MatchKind::Unknown.code(), "unknown");
    let matches = vec![
        ("Game (1990)".to_owned(), "TOSEC".to_owned()),
        ("Game [a]".to_owned(), "TOSEC".to_owned()),
    ];
    assert_eq!(
        identification_json("g.adf", &matches, MatchKind::Duplicated).to_json(),
        "{\"path\":\"g.adf\",\"identified\":true,\"ambiguous\":true,\"match\":\"duplicated\",\
         \"matches\":[{\"name\":\"Game (1990)\",\"source\":\"TOSEC\"},{\"name\":\"Game [a]\",\"source\":\"TOSEC\"}]}"
    );
    assert_eq!(
        identification_json("u.adf", &vec![], MatchKind::Unknown).to_json(),
        "{\"path\":\"u.adf\",\"identified\":false,\"ambiguous\":false,\"match\":\"unknown\",\"matches\":[]}"
    );
}

#[test]
fn a_bulk_output_is_named_by_stem_and_target_extension() {
    let to_hdf = ConvertRequest { to: Kind::Hardfile, into: "out".to_owned() };
    assert_eq!(to_hdf.output_name("Game (1990)"), "Game (1990).hdf");
    let to_xadf = ConvertRequest { to: Kind::ExtendedAdf { tracks: 160 }, into: "out".to_owned() };
    assert_eq!(to_xadf.output_name("disk"), "disk.adf");
}

#[test]
fn a_run_puts_its_records_in_path_order() {
    let s = run(vec![
        record("corpus/c.adf", "ADF", vec![]),
        Record::unreadable("corpus/a.adf".to_owned(), "x".to_owned()),
        record("corpus/b.adf", "ADF", vec![]),
    ]);
    let paths: Vec<&str> = s.records.iter().map(|r| r.path.as_str()).collect();
    assert_eq!(paths, vec!["corpus/a.adf", "corpus/b.adf", "corpus/c.adf"]);
    assert_eq!(s.examined, 3);
    assert!(s.unreadable + s.mounted <= s.examined);
    assert_eq!(s.unreadable, 1);
    assert_eq!(s.mounted, 2);
}

#[test]
fn conversion_outcomes_write_exactly_when_converted() {
    let done = ConversionOutcome::converted("out/a.adf".to_owned());
    assert_eq!(done.code, "converted");
    assert!(done.wrote());
    assert_eq!(done.written.as_deref(), Some("out/a.adf"));
    assert_eq!(done.reason, None);
    let taken = ConversionOutcome::already_exists("out/a.adf");
    assert_eq!(taken.code, "exists");
    assert!(!taken.wrote());
    assert_eq!(taken.written, None);
    assert_eq!(taken.reason.as_deref(), Some("out/a.adf already exists"));
    let failed = ConversionOutcome::failed("disk full".to_owned());
    assert_eq!(failed.code, "failed");
    assert!(!failed.wrote());
    assert_eq!(failed.reason.as_deref(), Some("disk full"));
    assert_eq!(
        done.to_json().to_json(),
        "{\"code\":\"converted\",\"written\":\"out/a.adf\",\"reason\":null}"
    );
}

#[test]
fn a_conversion_outcome_follows_how_far_the_conversion_got() {
    let taken = ConversionOutcome::of_stage("out/a.adf".to_owned(), lib::batch::ConvertStage::DestinationTaken);
    assert_eq!((taken.code, taken.reason.as_deref()), ("exists", Some("out/a.adf already exists")));
    let declined = ConversionOutcome::of_stage(
        "out/a.adf".to_owned(),
        lib::batch::ConvertStage::NotConverted(ConvertError::Refused { why: "no" }),
    );
    assert_eq!(declined.code, "refused");
    assert_eq!(declined.reason.as_deref(), Some("refused \u{2014} no"));
    let failed = ConversionOutcome::of_stage("out/a.adf".to_owned(), lib::batch::ConvertStage::WriteFailed("read-only".to_owned()));
    assert_eq!((failed.code, failed.reason.as_deref()), ("failed", Some("read-only")));
    let done = ConversionOutcome::of_stage("out/a.adf".to_owned(), lib::batch::ConvertStage::Written);
    assert!(done.wrote());
    assert_eq!(done.written.as_deref(), Some("out/a.adf"));
    for o in [&taken, &declined, &failed, &done] {
        assert_eq!(o.wrote(), o.written.is_some());
        assert_eq!(o.wrote(), o.reason.is_none());
    }
}
