use std::io::Cursor;

use base64::Engine;

use mp2json::{
    Converter, JsonNumber, JsonValue, Mp2JsonError, MpInteger, MpValue, ReadOutcome, Step,
    WriteOutcome,
};

fn from_rmpv(v: rmpv::Value) -> MpValue {
    match v {
        rmpv::Value::Nil => MpValue::Nil,
        rmpv::Value::Boolean(b) => MpValue::Boolean(b),
        rmpv::Value::Integer(i) => match i.as_u64() {
            Some(u) => MpValue::Integer(MpInteger::PosInt(u)),
            None => MpValue::Integer(MpInteger::NegInt(i.as_i64().unwrap())),
        },
        rmpv::Value::F32(f) => MpValue::F32(f.to_bits()),
        rmpv::Value::F64(f) => MpValue::F64(f.to_bits()),
        rmpv::Value::String(s) => MpValue::String(s.into_bytes()),
        rmpv::Value::Binary(b) => MpValue::Binary(b),
        rmpv::Value::Array(items) => MpValue::Array(items.into_iter().map(from_rmpv).collect()),
        rmpv::Value::Map(entries) => MpValue::Dict(
            entries
                .into_iter()
                .map(|(k, v)| (from_rmpv(k), from_rmpv(v)))
                .collect(),
        ),
        rmpv::Value::Ext(t, b) => MpValue::Ext(t, b),
    }
}

fn to_json(v: &JsonValue) -> json::JsonValue {
    match v {
        JsonValue::Null => json::JsonValue::Null,
        JsonValue::Boolean(b) => json::JsonValue::Boolean(*b),
        JsonValue::Number(JsonNumber::Signed(i)) => json::JsonValue::from(*i),
        JsonValue::Number(JsonNumber::Unsigned(u)) => json::JsonValue::from(*u),
        JsonValue::Number(JsonNumber::Float32Bits(b)) => json::JsonValue::from(f32::from_bits(*b)),
        JsonValue::Number(JsonNumber::Float64Bits(b)) => json::JsonValue::from(f64::from_bits(*b)),
        JsonValue::String(s) => json::JsonValue::from(s.as_str()),
        JsonValue::Array(items) => json::JsonValue::Array(items.iter().map(to_json).collect()),
        JsonValue::Object(entries) => {
            let mut o = json::object::Object::with_capacity(entries.len());
            for (k, v) in entries {
                o.insert(k, to_json(v));
            }
            json::JsonValue::Object(o)
        }
    }
}

fn read_outcome(c: &Converter, input: &mut Cursor<&[u8]>) -> ReadOutcome {
    let start = input.position();
    match rmpv::decode::read_value(input) {
        Ok(v) => ReadOutcome::Value(from_rmpv(v)),
        Err(e) => {
            let end_at_marker = matches!(
                &e,
                rmpv::decode::Error::InvalidMarkerRead(io)
                    if io.kind() == std::io::ErrorKind::UnexpectedEof
            );
            c.read_failed(end_at_marker, input.position() - start)
        }
    }
}

fn read_and_convert_one(bytes: &[u8]) -> Result<JsonValue, Mp2JsonError> {
    let c = Converter::new(false, false);
    match c.after_read(read_outcome(&c, &mut Cursor::new(bytes))) {
        Step::Emit(j) => Ok(j),
        Step::Fail(e) => Err(e),
        other => panic!("unexpected step {:?}", other),
    }
}

/// Runs the loop over `bytes`; the output accepts `accepted` lines, then
/// reports the given outcome for every further write.
fn run(bytes: &[u8], accepted: usize, then: WriteOutcome) -> (Vec<String>, Result<(), Mp2JsonError>) {
    let c = Converter::new(false, false);
    let mut input = Cursor::new(bytes);
    let mut lines = Vec::new();
    loop {
        match c.after_read(read_outcome(&c, &mut input)) {
            Step::Emit(j) => {
                let w = if lines.len() < accepted {
                    lines.push(to_json(&j).dump());
                    WriteOutcome::Written
                } else {
                    then
                };
                match c.after_write(w) {
                    Step::Continue => {}
                    Step::Finish => return (lines, Ok(())),
                    Step::Fail(e) => return (lines, Err(e)),
                    Step::Emit(_) => panic!("a write never emits"),
                }
            }
            Step::Finish => return (lines, Ok(())),
            Step::Fail(e) => return (lines, Err(e)),
            Step::Continue => panic!("a read never continues"),
        }
    }
}

fn s(text: &str) -> MpValue {
    MpValue::String(text.as_bytes().to_vec())
}

fn obj(entries: Vec<(&str, JsonValue)>) -> JsonValue {
    JsonValue::Object(entries.into_iter().map(|(k, v)| (k.to_string(), v)).collect())
}

fn jstr(text: &str) -> JsonValue {
    JsonValue::String(text.to_string())
}

#[test]
fn test_smoke() {
    assert_eq!(
        read_and_convert_one(b"\x01").unwrap(),
        JsonValue::Number(JsonNumber::Signed(1))
    );
    assert_eq!(read_and_convert_one(b"\xc0").unwrap(), JsonValue::Null);
    assert_eq!(
        to_json(&read_and_convert_one(b"\x81\xa3foo\xc4\x03bar").unwrap()).dump(),
        r#"{"foo":{"encoding":"base64","value":"YmFy"}}"#.to_string(),
    );
}

#[test]
fn test_non_stringy_map() {
    assert!(matches!(
        read_and_convert_one(b"\x81\x01\x02"),
        Err(Mp2JsonError::MapKeyNotString)
    ));
}

#[test]
fn test_invalid_string() {
    assert!(matches!(
        read_and_convert_one(b"\xa2\xc3("),
        Err(Mp2JsonError::InvalidString)
    ));
}

#[test]
fn integers_keep_their_value() {
    let cases: Vec<(MpInteger, JsonNumber)> = vec![
        (MpInteger::PosInt(0), JsonNumber::Signed(0)),
        (MpInteger::PosInt(i64::MAX as u64), JsonNumber::Signed(i64::MAX)),
        (MpInteger::PosInt(1u64 << 63), JsonNumber::Unsigned(1u64 << 63)),
        (MpInteger::PosInt(u64::MAX), JsonNumber::Unsigned(u64::MAX)),
        (MpInteger::NegInt(-1), JsonNumber::Signed(-1)),
        (MpInteger::NegInt(i64::MIN), JsonNumber::Signed(i64::MIN)),
    ];
    for (i, n) in cases {
        assert_eq!(mp2json::convert(&MpValue::Integer(i)), Ok(JsonValue::Number(n)));
    }
    assert_eq!(
        to_json(&read_and_convert_one(b"\xcf\xff\xff\xff\xff\xff\xff\xff\xff").unwrap()).dump(),
        "18446744073709551615"
    );
    assert_eq!(to_json(&read_and_convert_one(b"\xd0\x80").unwrap()).dump(), "-128");
}

#[test]
fn floats_carry_their_bits() {
    assert_eq!(
        mp2json::convert(&MpValue::F64(1.5f64.to_bits())),
        Ok(JsonValue::Number(JsonNumber::Float64Bits(1.5f64.to_bits())))
    );
    assert_eq!(
        mp2json::convert(&MpValue::F32(0.25f32.to_bits())),
        Ok(JsonValue::Number(JsonNumber::Float32Bits(0.25f32.to_bits())))
    );
    assert_eq!(to_json(&read_and_convert_one(b"\xcb\x3f\xf8\0\0\0\0\0\0").unwrap()).dump(), "1.5");
}

#[test]
fn booleans_and_strings() {
    assert_eq!(mp2json::convert(&MpValue::Boolean(true)), Ok(JsonValue::Boolean(true)));
    assert_eq!(mp2json::convert(&MpValue::Boolean(false)), Ok(JsonValue::Boolean(false)));
    assert_eq!(mp2json::convert(&s("héllo ✓")), Ok(jstr("héllo ✓")));
    assert_eq!(mp2json::convert(&s("")), Ok(jstr("")));
    assert_eq!(
        mp2json::convert(&MpValue::String(vec![0xed, 0xa0, 0x80])),
        Err(Mp2JsonError::InvalidString)
    );
}

#[test]
fn binary_becomes_base64_envelope() {
    let expected = |v: &str| obj(vec![("encoding", jstr("base64")), ("value", jstr(v))]);
    assert_eq!(mp2json::convert(&MpValue::Binary(b"bar".to_vec())), Ok(expected("YmFy")));
    assert_eq!(mp2json::convert(&MpValue::Binary(vec![])), Ok(expected("")));
    assert_eq!(mp2json::convert(&MpValue::Binary(vec![0xff])), Ok(expected("/w==")));
    assert_eq!(mp2json::convert(&MpValue::Binary(vec![0xfb, 0xff])), Ok(expected("+/8=")));
    let bytes: Vec<u8> = (0u8..=255).collect();
    match mp2json::convert(&MpValue::Binary(bytes.clone())) {
        Ok(JsonValue::Object(entries)) => match &entries[1].1 {
            JsonValue::String(text) => assert_eq!(
                base64::engine::general_purpose::STANDARD.decode(text).unwrap(),
                bytes
            ),
            other => panic!("unexpected {:?}", other),
        },
        other => panic!("unexpected {:?}", other),
    }
}

#[test]
fn extension_becomes_typed_envelope() {
    assert_eq!(
        mp2json::convert(&MpValue::Ext(-3, b"bar".to_vec())),
        Ok(obj(vec![
            ("type_code", JsonValue::Number(JsonNumber::Signed(-3))),
            ("encoding", jstr("base64")),
            ("value", jstr("YmFy")),
        ]))
    );
    assert_eq!(
        to_json(&read_and_convert_one(b"\xd4\x05\x41").unwrap()).dump(),
        r#"{"type_code":5,"encoding":"base64","value":"QQ=="}"#
    );
}

#[test]
fn arrays_keep_order_and_length() {
    let v = MpValue::Array(vec![
        MpValue::Integer(MpInteger::PosInt(3)),
        MpValue::Nil,
        s("x"),
        MpValue::Array(vec![]),
    ]);
    assert_eq!(
        mp2json::convert(&v),
        Ok(JsonValue::Array(vec![
            JsonValue::Number(JsonNumber::Signed(3)),
            JsonValue::Null,
            jstr("x"),
            JsonValue::Array(vec![]),
        ]))
    );
    assert_eq!(mp2json::convert(&MpValue::Array(vec![])), Ok(JsonValue::Array(vec![])));
}

#[test]
fn arrays_fail_with_first_error() {
    let bad_key_map = MpValue::Dict(vec![(MpValue::Nil, MpValue::Nil)]);
    let v = MpValue::Array(vec![
        MpValue::Nil,
        MpValue::String(vec![0xc3, 0x28]),
        bad_key_map,
    ]);
    assert_eq!(mp2json::convert(&v), Err(Mp2JsonError::InvalidString));
    let w = MpValue::Array(vec![
        MpValue::Dict(vec![(MpValue::Boolean(true), MpValue::Nil)]),
        MpValue::String(vec![0xc3, 0x28]),
    ]);
    assert_eq!(mp2json::convert(&w), Err(Mp2JsonError::MapKeyNotString));
}

#[test]
fn maps_reject_bad_keys() {
    let non_string = MpValue::Dict(vec![
        (s("a"), MpValue::Nil),
        (MpValue::Integer(MpInteger::PosInt(1)), MpValue::Nil),
    ]);
    assert_eq!(mp2json::convert(&non_string), Err(Mp2JsonError::MapKeyNotString));
    let non_utf8 = MpValue::Dict(vec![(MpValue::String(vec![0xff]), MpValue::Nil)]);
    assert_eq!(mp2json::convert(&non_utf8), Err(Mp2JsonError::InvalidString));
    let binary_key = MpValue::Dict(vec![(MpValue::Binary(b"a".to_vec()), MpValue::Nil)]);
    assert_eq!(mp2json::convert(&binary_key), Err(Mp2JsonError::MapKeyNotString));
    let bad_value = MpValue::Dict(vec![(s("a"), MpValue::String(vec![0xff]))]);
    assert_eq!(mp2json::convert(&bad_value), Err(Mp2JsonError::InvalidString));
}

#[test]
fn maps_keep_last_duplicate() {
    let v = MpValue::Dict(vec![
        (s("a"), MpValue::Integer(MpInteger::PosInt(1))),
        (s("b"), MpValue::Integer(MpInteger::PosInt(2))),
        (s("a"), MpValue::Integer(MpInteger::PosInt(3))),
    ]);
    assert_eq!(
        mp2json::convert(&v),
        Ok(obj(vec![
            ("a", JsonValue::Number(JsonNumber::Signed(3))),
            ("b", JsonValue::Number(JsonNumber::Signed(2))),
        ]))
    );
    assert_eq!(
        to_json(&read_and_convert_one(b"\x82\xa1k\x01\xa1k\x02").unwrap()).dump(),
        r#"{"k":2}"#
    );
    assert_eq!(mp2json::convert(&MpValue::Dict(vec![])), Ok(JsonValue::Object(vec![])));
}

#[test]
fn object_insert_replaces_in_place() {
    let mut entries = vec![("x".to_string(), JsonValue::Null), ("y".to_string(), JsonValue::Null)];
    mp2json::object_insert(&mut entries, "x".to_string(), JsonValue::Boolean(true));
    mp2json::object_insert(&mut entries, "z".to_string(), JsonValue::Boolean(false));
    assert_eq!(
        entries,
        vec![
            ("x".to_string(), JsonValue::Boolean(true)),
            ("y".to_string(), JsonValue::Null),
            ("z".to_string(), JsonValue::Boolean(false)),
        ]
    );
}

#[test]
fn stream_of_three_values_gives_three_lines() {
    let (lines, result) = run(b"\x01\xc0\x92\xc3\xa1a", usize::MAX, WriteOutcome::Written);
    assert_eq!(result, Ok(()));
    assert_eq!(lines, vec!["1".to_string(), "null".to_string(), r#"[true,"a"]"#.to_string()]);
}

#[test]
fn closed_output_ends_run_with_success() {
    let (lines, result) = run(b"\x01\x02\x03", 1, WriteOutcome::BrokenPipe);
    assert_eq!(result, Ok(()));
    assert_eq!(lines, vec!["1".to_string()]);
}

#[test]
fn failed_output_is_an_error() {
    let (lines, result) = run(b"\x01\x02", 1, WriteOutcome::Failed);
    assert_eq!(result, Err(Mp2JsonError::Output));
    assert_eq!(lines, vec!["1".to_string()]);
    let c = Converter::new(true, false);
    assert!(c.flushes_at_end());
    assert!(!Converter::new(false, true).flushes_at_end());
    assert_eq!(c.after_flush(true), Ok(()));
    assert_eq!(c.after_flush(false), Err(Mp2JsonError::Output));
}

#[test]
fn truncated_input_is_a_decode_error() {
    let (lines, result) = run(b"\x01\x92\x01", usize::MAX, WriteOutcome::Written);
    assert_eq!(result, Err(Mp2JsonError::RmpDecode));
    assert_eq!(lines, vec!["1".to_string()]);
    let (lines, result) = run(b"\x01\xa3ab", usize::MAX, WriteOutcome::Written);
    assert_eq!(result, Err(Mp2JsonError::RmpDecode));
    assert_eq!(lines, vec!["1".to_string()]);
    let (lines, result) = run(b"", usize::MAX, WriteOutcome::Written);
    assert_eq!(result, Ok(()));
    assert!(lines.is_empty());
}

#[test]
fn conversion_error_stops_the_stream() {
    let (lines, result) = run(b"\x07\x81\x01\x02\x08", usize::MAX, WriteOutcome::Written);
    assert_eq!(result, Err(Mp2JsonError::MapKeyNotString));
    assert_eq!(lines, vec!["7".to_string()]);
}
