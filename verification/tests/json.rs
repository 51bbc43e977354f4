use lib::json::Value;

#[test]
fn writes_scalars() {
    assert_eq!(Value::Null.to_json(), "null");
    assert_eq!(Value::Bool(true).to_json(), "true");
    assert_eq!(Value::Num(42).to_json(), "42");
    assert_eq!(Value::str("hi").to_json(), "\"hi\"");
}

#[test]
fn escapes_the_characters_json_requires() {
    assert_eq!(Value::str("a\"b").to_json(), "\"a\\\"b\"");
    assert_eq!(Value::str("a\\b").to_json(), "\"a\\\\b\"");
    assert_eq!(Value::str("a\nb").to_json(), "\"a\\nb\"");
    assert_eq!(Value::str("a\tb").to_json(), "\"a\\tb\"");
    assert_eq!(Value::str("a\rb").to_json(), "\"a\\rb\"");
    // A raw NUL or other control byte must never reach the output.
    assert_eq!(Value::str("\u{0}").to_json(), "\"\\u0000\"");
    assert_eq!(Value::str("\u{1f}").to_json(), "\"\\u001f\"");
    assert_eq!(Value::str("\u{08}").to_json(), "\"\\b\"");
}

#[test]
fn latin1_names_round_trip_losslessly() {
    // 0xE9 is the ISO 8859-1 'e-acute'.
    assert_eq!(
        Value::latin1(&[b'C', b'a', b'f', 0xE9]).to_json(),
        "\"Caf\\u00e9\""
    );

    // Every byte value must survive, including those that are not valid
    // UTF-8 alone: a filename is bytes, not text.
    for b in 0u8..=255 {
        let json = Value::latin1(&[b]).to_json();
        assert!(json.is_ascii(), "byte {b:#04x} produced non-ASCII output");
        assert!(json.starts_with('"') && json.ends_with('"'));
    }
}

#[test]
fn output_is_always_ascii() {
    let v = Value::Arr(vec![
        Value::latin1(&[0xFF, 0xFE, 0x80]),
        Value::str("plain"),
    ]);
    assert!(v.to_json().is_ascii());
}

#[test]
fn nests_without_malforming() {
    let v = Value::Obj(vec![
        ("name", Value::str("readme")),
        ("size", Value::Num(11)),
        ("tags", Value::Arr(vec![Value::str("a"), Value::str("b")])),
        ("missing", Value::Null),
        ("inner", Value::Obj(vec![("deep", Value::Bool(false))])),
    ]);
    assert_eq!(
        v.to_json(),
        "{\"name\":\"readme\",\"size\":11,\"tags\":[\"a\",\"b\"],\"missing\":null,\"inner\":{\"deep\":false}}"
    );
}

#[test]
fn empty_containers_are_valid() {
    assert_eq!(Value::Arr(vec![]).to_json(), "[]");
    assert_eq!(Value::Obj(vec![]).to_json(), "{}");
    assert_eq!(Value::str("").to_json(), "\"\"");
}

#[test]
fn opt_maps_none_to_null() {
    assert_eq!(Value::opt(None::<u64>, Value::Num).to_json(), "null");
    assert_eq!(Value::opt(Some(7u64), Value::Num).to_json(), "7");
}

#[test]
fn a_key_needing_escapes_is_still_escaped() {
    assert_eq!(
        Value::Obj(vec![("a\"b", Value::Null)]).to_json(),
        "{\"a\\\"b\":null}"
    );
}

#[test]
fn characters_beyond_the_basic_plane_are_written_as_surrogate_pairs() {
    assert_eq!(Value::str("\u{1F600}").to_json(), "\"\\ud83d\\ude00\"");
    assert_eq!(Value::str("a\u{10000}b").to_json(), "\"a\\ud800\\udc00b\"");
    assert_eq!(Value::str("\u{10FFFF}").to_json(), "\"\\udbff\\udfff\"");
}

#[test]
fn latin1_text_reads_back_as_its_bytes() {
    let all: Vec<u8> = (0..=255u8).collect();
    let written = Value::latin1(&all).to_json();
    assert!(written.is_ascii());
    for a in [&[0x41u8, 0xE9][..], &[0xE9, 0x41][..], &[0x00][..], &[][..], &[0x22, 0x5C][..]] {
        for b in [&[0x41u8, 0xE9][..], &[0xE9, 0x41][..], &[0x00][..], &[][..], &[0x22, 0x5C][..]] {
            assert_eq!(Value::latin1(a).to_json() == Value::latin1(b).to_json(), a == b);
        }
    }
    assert_eq!(Value::latin1(&[0xE9]).to_json(), "\"\\u00e9\"");
}
