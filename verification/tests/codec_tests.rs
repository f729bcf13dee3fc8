//! The JSON codec against concrete frames, and against an independent
//! JSON implementation.

use shuru::codec::{encode_line, parse_line, JVal};

fn line(fields: Vec<(Vec<u8>, JVal)>) -> Vec<u8> {
    encode_line(&fields)
}

#[test]
fn empty_object_line() {
    let out = line(vec![]);
    assert_eq!(out, b"{}\n".to_vec());
}

#[test]
fn simple_string_field() {
    let out = line(vec![(b"type".to_vec(), JVal::Str(b"exit".to_vec()))]);
    assert_eq!(out, b"{\"type\":\"exit\"}\n".to_vec());
}

#[test]
fn number_bool_null_fields() {
    let out = line(vec![
        (b"code".to_vec(), JVal::Num(-137)),
        (b"tty".to_vec(), JVal::Bool(true)),
        (b"x".to_vec(), JVal::Null),
    ]);
    assert_eq!(out, b"{\"code\":-137,\"tty\":true,\"x\":null}\n".to_vec());
}

#[test]
fn array_and_map_fields() {
    let out = line(vec![
        (b"argv".to_vec(), JVal::StrArr(vec![b"/bin/echo".to_vec(), b"hi".to_vec()])),
        (
            b"env".to_vec(),
            JVal::StrMap(vec![(b"A".to_vec(), b"1".to_vec())]),
        ),
    ]);
    assert_eq!(
        out,
        b"{\"argv\":[\"/bin/echo\",\"hi\"],\"env\":{\"A\":\"1\"}}\n".to_vec()
    );
}

#[test]
fn escapes_are_canonical() {
    let out = line(vec![(b"data".to_vec(), JVal::Str(b"a\"b\\c\nd\x01".to_vec()))]);
    assert_eq!(
        out,
        b"{\"data\":\"a\\\"b\\\\c\\u000ad\\u0001\"}\n".to_vec()
    );
}

#[test]
fn exactly_one_newline_at_end() {
    let out = line(vec![(b"data".to_vec(), JVal::Str(b"line1\nline2\n".to_vec()))]);
    assert_eq!(out.iter().filter(|&&b| b == b'\n').count(), 1);
    assert_eq!(*out.last().unwrap(), b'\n');
}

#[test]
fn round_trip_through_own_parser() {
    let fields = vec![
        (b"argv".to_vec(), JVal::StrArr(vec![b"/bin/sh".to_vec(), b"-c".to_vec()])),
        (b"env".to_vec(), JVal::StrMap(vec![])),
        (b"tty".to_vec(), JVal::Bool(false)),
        (b"rows".to_vec(), JVal::Num(24)),
    ];
    let out = line(vec![
        (b"argv".to_vec(), JVal::StrArr(vec![b"/bin/sh".to_vec(), b"-c".to_vec()])),
        (b"env".to_vec(), JVal::StrMap(vec![])),
        (b"tty".to_vec(), JVal::Bool(false)),
        (b"rows".to_vec(), JVal::Num(24)),
    ]);
    let parsed = parse_line(&out).expect("canonical line parses");
    assert_eq!(parsed.len(), fields.len());
    for (i, (key, _)) in fields.iter().enumerate() {
        assert_eq!(&parsed[i].0, key);
    }
    match &parsed[0].1 {
        JVal::StrArr(items) => {
            assert_eq!(items, &vec![b"/bin/sh".to_vec(), b"-c".to_vec()]);
        }
        _ => panic!("argv is an array"),
    }
    match &parsed[3].1 {
        JVal::Num(n) => assert_eq!(*n, 24),
        _ => panic!("rows is a number"),
    }
}

#[test]
fn parser_accepts_whitespace_and_any_field_order() {
    let text = b" { \"code\" : 7 ,\t\"type\": \"exit\" }\n";
    let parsed = parse_line(text).expect("whitespace tolerated");
    assert_eq!(parsed.len(), 2);
    assert_eq!(parsed[0].0, b"code".to_vec());
    assert_eq!(parsed[1].0, b"type".to_vec());
}

#[test]
fn parser_accepts_standard_escapes() {
    let text = b"{\"data\":\"a\\tb\\r\\n\\\"\\\\\\/\\u0041\"}";
    let parsed = parse_line(text).expect("escapes accepted");
    match &parsed[0].1 {
        JVal::Str(s) => assert_eq!(s, &b"a\tb\r\n\"\\/A".to_vec()),
        _ => panic!("data is a string"),
    }
}

#[test]
fn parser_rejects_garbage() {
    assert!(parse_line(b"").is_none());
    assert!(parse_line(b"not json").is_none());
    assert!(parse_line(b"{\"a\":}").is_none());
    assert!(parse_line(b"{\"a\":1} trailing").is_none());
    assert!(parse_line(b"{\"a\":1").is_none());
    assert!(parse_line(b"[1,2]").is_none());
}

#[test]
fn parser_rejects_out_of_range_numbers() {
    assert!(parse_line(b"{\"n\":9223372036854775807}").is_some());
    assert!(parse_line(b"{\"n\":-9223372036854775808}").is_some());
    assert!(parse_line(b"{\"n\":9223372036854775808}").is_none());
    assert!(parse_line(b"{\"n\":-9223372036854775809}").is_none());
}

#[test]
fn encoder_output_is_valid_json_for_serde() {
    let out = line(vec![
        (b"argv".to_vec(), JVal::StrArr(vec![b"/bin/echo".to_vec(), b"h i".to_vec()])),
        (b"env".to_vec(), JVal::StrMap(vec![(b"K".to_vec(), b"v\n".to_vec())])),
        (b"tty".to_vec(), JVal::Bool(true)),
        (b"rows".to_vec(), JVal::Num(42)),
        (b"note".to_vec(), JVal::Str(b"quote \" backslash \\".to_vec())),
    ]);
    let text = String::from_utf8(out).expect("canonical output is UTF-8 here");
    let v: serde_json::Value = serde_json::from_str(text.trim_end()).expect("serde parses it");
    assert_eq!(v["argv"][0], "/bin/echo");
    assert_eq!(v["argv"][1], "h i");
    assert_eq!(v["env"]["K"], "v\n");
    assert_eq!(v["tty"], true);
    assert_eq!(v["rows"], 42);
    assert_eq!(v["note"], "quote \" backslash \\");
}

#[test]
fn parser_accepts_serde_output() {
    let mut m = serde_json::Map::new();
    m.insert("type".to_string(), serde_json::Value::String("stdout".to_string()));
    m.insert(
        "data".to_string(),
        serde_json::Value::String("hello\nworld \u{1b}[0m".to_string()),
    );
    let text = serde_json::Value::Object(m).to_string();
    let parsed = parse_line(text.as_bytes()).expect("serde output parses");
    let data = parsed
        .iter()
        .find(|(k, _)| k == &b"data".to_vec())
        .expect("data field present");
    match &data.1 {
        JVal::Str(s) => assert_eq!(s, &"hello\nworld \u{1b}[0m".as_bytes().to_vec()),
        _ => panic!("data is a string"),
    }
}
