use lib::convert::{
    convert_bytes, encoded_output, Converted,
};
use lib::convert::{
    conversion, extension_for, is_same_format, kind_from_extension, known_formats, matrix_json,
    plan, Conversion, ConvertError, FormatName, Kind, Plan, LOST_FLUX, LOST_RAW_TRACKS,
    WHY_IPF_REFUSED, WHY_NO_DMS_READ, WHY_NO_RDB_WRITE,
};

const ADF: Kind = Kind::Adf { cylinders: 80, sectors: 11 };
const XADF: Kind = Kind::ExtendedAdf { tracks: 160 };

#[test]
fn writing_ipf_is_refused_with_the_constraint_named() {
    for from in known_formats() {
        assert_eq!(conversion(from, Kind::Ipf), Conversion::Refused { why: WHY_IPF_REFUSED });
    }
    assert!(WHY_IPF_REFUSED.contains("C-003"));
    assert_eq!(plan(ADF, Kind::Ipf), Err(ConvertError::Refused { why: WHY_IPF_REFUSED }));
}

#[test]
fn sector_images_convert_losslessly() {
    assert_eq!(conversion(ADF, Kind::Hardfile), Conversion::Lossless);
    assert_eq!(conversion(Kind::Gzip, ADF), Conversion::Lossless);
    assert_eq!(conversion(ADF, XADF), Conversion::Lossless);
    assert_eq!(plan(Kind::Gzip, ADF), Ok(Plan { inflate: true, encode_mfm: false }));
    assert_eq!(plan(ADF, XADF), Ok(Plan { inflate: false, encode_mfm: true }));
    assert_eq!(plan(ADF, Kind::Hardfile), Ok(Plan { inflate: false, encode_mfm: false }));
}

#[test]
fn leaving_a_capture_is_lossy_and_not_done() {
    assert_eq!(conversion(XADF, ADF), Conversion::Lossy { lost: LOST_RAW_TRACKS });
    assert_eq!(conversion(Kind::Scp, Kind::Hardfile), Conversion::Lossy { lost: LOST_FLUX });
    assert_eq!(plan(Kind::Scp, ADF), Err(ConvertError::Lossy { lost: LOST_FLUX }));
}

#[test]
fn the_gaps_are_named() {
    assert_eq!(conversion(Kind::Dms, ADF), Conversion::NotImplemented { why: WHY_NO_DMS_READ });
    assert_eq!(conversion(ADF, Kind::RigidDisk), Conversion::NotImplemented { why: WHY_NO_RDB_WRITE });
    assert!(matches!(conversion(ADF, Kind::Scp), Conversion::NotImplemented { .. }));
    assert!(matches!(conversion(ADF, Kind::Gzip), Conversion::NotImplemented { .. }));
    assert!(matches!(conversion(ADF, Kind::Dms), Conversion::Refused { .. }));
    assert!(matches!(conversion(Kind::Scp, XADF), Conversion::NotImplemented { .. }));
    assert!(matches!(conversion(Kind::Unknown, ADF), Conversion::NotImplemented { .. }));
}

#[test]
fn only_lossless_conversions_have_a_plan() {
    for from in known_formats() {
        for to in known_formats() {
            let c = conversion(from, to);
            assert_eq!(plan(from, to).is_ok(), c == Conversion::Lossless);
            assert_eq!(c.is_possible(), matches!(c, Conversion::Lossless | Conversion::Lossy { .. }));
        }
    }
}

#[test]
fn conversions_read_as_a_label_and_a_reason() {
    assert_eq!(Conversion::Lossless.label(), "lossless");
    assert_eq!(Conversion::Lossless.message(), "lossless");
    assert_eq!(Conversion::Lossy { lost: "x" }.message(), "lossy \u{2014} x");
    assert_eq!(Conversion::Refused { why: "y" }.label(), "refused");
    assert_eq!(Conversion::NotImplemented { why: "z" }.message(), "not implemented \u{2014} z");
    assert_eq!(
        Conversion::Refused { why: "y" }.to_json().to_json(),
        "{\"kind\":\"refused\",\"possible\":false,\"reason\":\"y\"}"
    );
    assert_eq!(
        Conversion::Lossless.to_json().to_json(),
        "{\"kind\":\"lossless\",\"possible\":true,\"reason\":null}"
    );
}

#[test]
fn errors_have_stable_codes_and_messages() {
    assert_eq!(ConvertError::Lossy { lost: "x" }.code(), "lossy");
    assert_eq!(ConvertError::Lossy { lost: "x" }.message(), "this would discard x");
    assert_eq!(ConvertError::NotImplemented { why: "w" }.code(), "not-implemented");
    assert_eq!(ConvertError::Refused { why: "w" }.message(), "refused \u{2014} w");
    let failed = ConvertError::Failed { reason: "disk full".to_owned() };
    assert_eq!(failed.code(), "failed");
    assert_eq!(failed.message(), "disk full");
}

#[test]
fn an_unknown_output_extension_is_an_error_not_a_guess() {
    assert_eq!(kind_from_extension("ADF"), Some(ADF));
    assert_eq!(kind_from_extension("hda"), Some(Kind::Hardfile));
    assert_eq!(kind_from_extension("Hdz"), Some(Kind::Gzip));
    assert_eq!(kind_from_extension("gz"), Some(Kind::Gzip));
    assert_eq!(kind_from_extension("ipf"), Some(Kind::Ipf));
    assert_eq!(kind_from_extension("txt"), None);
    assert_eq!(kind_from_extension(""), None);
    assert_eq!(kind_from_extension("adff"), None);
}

#[test]
fn extensions_round_trip_where_they_can() {
    assert_eq!(extension_for(ADF), "adf");
    assert_eq!(extension_for(XADF), "adf");
    assert_eq!(extension_for(Kind::RigidDisk), "hdf");
    assert_eq!(extension_for(Kind::Gzip), "adz");
    assert_eq!(extension_for(Kind::Unknown), "bin");
    assert!(is_same_format(ADF, Kind::Adf { cylinders: 84, sectors: 11 }));
    assert!(!is_same_format(ADF, XADF));
}

#[test]
fn the_matrix_lists_every_ordered_pair_of_distinct_formats() {
    let names = vec![
        FormatName { kind: ADF, code: "adf".to_owned(), label: "ADF".to_owned() },
        FormatName { kind: Kind::Ipf, code: "ipf".to_owned(), label: "IPF".to_owned() },
    ];
    assert_eq!(
        matrix_json(&names).to_json(),
        format!(
            "{{\"conversions\":[\
             {{\"from\":\"adf\",\"to\":\"ipf\",\"from_label\":\"ADF\",\"to_label\":\"IPF\",\
             \"conversion\":{{\"kind\":\"refused\",\"possible\":false,\"reason\":\"{WHY_IPF_REFUSED}\"}}}},\
             {{\"from\":\"ipf\",\"to\":\"adf\",\"from_label\":\"IPF\",\"to_label\":\"ADF\",\
             \"conversion\":{{\"kind\":\"not implemented\",\"possible\":false,\"reason\":\"{}\"}}}}]}}",
            lib::convert::WHY_NO_IPF_READ
        )
    );
    let all: Vec<FormatName> = known_formats()
        .into_iter()
        .map(|k| FormatName { kind: k, code: extension_for(k).to_owned(), label: String::new() })
        .collect();
    let json = matrix_json(&all).to_json();
    assert_eq!(json.matches("\"from\":").count(), 8 * 7);
}

#[test]
fn converting_between_sector_images_hands_the_bytes_back_unchanged() {
    let bytes = vec![1u8, 2, 3, 4];
    match convert_bytes(bytes.clone(), ADF, Kind::Hardfile, None) {
        Ok(Converted::Output(v)) => assert_eq!(v, bytes),
        other => panic!("unexpected {other:?}"),
    }
}

#[test]
fn a_compressed_source_converts_to_what_it_inflated_to() {
    let inflated = vec![9u8; 16];
    match convert_bytes(vec![0x1f, 0x8b], Kind::Gzip, ADF, Some(Ok(inflated.clone()))) {
        Ok(Converted::Output(v)) => assert_eq!(v, inflated),
        other => panic!("unexpected {other:?}"),
    }
    match convert_bytes(vec![0x1f, 0x8b], Kind::Gzip, ADF, Some(Err("truncated stream".to_owned()))) {
        Err(ConvertError::Failed { reason }) => assert_eq!(reason, "truncated stream"),
        other => panic!("unexpected {other:?}"),
    }
}

#[test]
fn a_refused_pair_gives_the_matrix_error_and_no_bytes() {
    assert_eq!(
        convert_bytes(vec![1, 2], ADF, Kind::Ipf, None).unwrap_err(),
        ConvertError::Refused { why: WHY_IPF_REFUSED }
    );
    assert_eq!(
        convert_bytes(vec![1, 2], Kind::Scp, ADF, None).unwrap_err(),
        ConvertError::Lossy { lost: LOST_FLUX }
    );
}

#[test]
fn an_extended_adf_target_leaves_the_sectors_to_encode() {
    match convert_bytes(vec![5u8; 8], ADF, XADF, None) {
        Ok(Converted::Encode(v)) => assert_eq!(v, vec![5u8; 8]),
        other => panic!("unexpected {other:?}"),
    }
    assert_eq!(encoded_output(Ok(vec![7u8])).unwrap(), vec![7u8]);
    assert_eq!(
        encoded_output(Err("no geometry".to_owned())).unwrap_err(),
        ConvertError::Failed { reason: "no geometry".to_owned() }
    );
}

#[test]
fn formats_are_named_by_code_and_label() {
    let f = lib::convert::format_name(ADF);
    assert_eq!((f.code.as_str(), f.label.as_str()), ("adf", "ADF (80 cylinders)"));
    let d = lib::convert::format_name(Kind::Dms);
    assert_eq!((d.code.as_str(), d.label.as_str()), ("dms", "DMS archive"));
    assert_eq!(lib::convert::format_name(XADF).code, "extended-adf");
}
