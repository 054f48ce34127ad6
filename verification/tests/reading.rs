use loadcore::json::Value;
use loadcore::parse::{parse_json, str_to_json};
use loadcore::readers::{csv_fields, csv_values, json_file_values, line_values, CsvHeaders};

fn bv(s: &str) -> Vec<u8> {
    s.as_bytes().to_vec()
}

#[test]
fn str_to_json_parses_documents_and_falls_back() {
    assert_eq!(str_to_json("123"), Value::Int(123));
    assert_eq!(str_to_json("-7"), Value::Int(-7));
    assert_eq!(str_to_json("null"), Value::Null);
    assert_eq!(str_to_json("true"), Value::Bool(true));
    assert_eq!(str_to_json("\"hi\""), Value::Str(bv("hi")));
    assert_eq!(
        str_to_json("[1, 2, 3]"),
        Value::Array(vec![Value::Int(1), Value::Int(2), Value::Int(3)])
    );
    assert_eq!(
        str_to_json(" {\"a\": [true, null]} "),
        Value::Object(vec![(bv("a"), Value::Array(vec![Value::Bool(true), Value::Null]))])
    );
    // Not JSON the engine understands: carried as text.
    assert_eq!(str_to_json("plain words"), Value::Str(bv("plain words")));
    assert_eq!(str_to_json("1.5"), Value::Str(bv("1.5")));
    assert_eq!(str_to_json("[1,"), Value::Str(bv("[1,")));
}

#[test]
fn parser_handles_string_escapes() {
    assert_eq!(
        str_to_json("\"a\\\"b\\n\\u0041\""),
        Value::Str(bv("a\"b\nA"))
    );
    assert_eq!(parse_json(&bv("\"\\q\"")), None);
}

#[test]
fn line_reader_skips_empties_and_strips_cr() {
    let vals = line_values(&bv("alpha\nbeta\r\n\ngamma"));
    assert_eq!(
        vals,
        vec![Value::Str(bv("alpha")), Value::Str(bv("beta")), Value::Str(bv("gamma"))]
    );
}

#[test]
fn json_reader_takes_arrays_and_ndjson() {
    let vals = json_file_values(&bv("[1, \"x\"]")).unwrap();
    assert_eq!(vals, vec![Value::Int(1), Value::Str(bv("x"))]);
    let vals = json_file_values(&bv("1\n{\"a\":2}\n")).unwrap();
    assert_eq!(
        vals,
        vec![Value::Int(1), Value::Object(vec![(bv("a"), Value::Int(2))])]
    );
    assert!(json_file_values(&bv("1\nnot json\n")).is_err());
}

#[test]
fn csv_fields_respect_quotes() {
    let fields = csv_fields(&bv("a,\"he,llo\",\"x\"\"y\""), b',', b'"').unwrap();
    assert_eq!(fields, vec![bv("a"), bv("he,llo"), bv("x\"y")]);
    assert_eq!(csv_fields(&bv("\"unterminated"), b',', b'"'), None);
}

#[test]
fn csv_reader_builds_rows_from_header_row() {
    let content = bv("name,count,ok\nalice,3,true\nbob,null,false\n");
    let vals = csv_values(&content, &CsvHeaders::FirstRow, b',', b'"').unwrap();
    assert_eq!(
        vals,
        vec![
            Value::Object(vec![
                (bv("name"), Value::Str(bv("alice"))),
                (bv("count"), Value::Int(3)),
                (bv("ok"), Value::Bool(true)),
            ]),
            Value::Object(vec![
                (bv("name"), Value::Str(bv("bob"))),
                (bv("count"), Value::Null),
                (bv("ok"), Value::Bool(false)),
            ]),
        ]
    );
}

#[test]
fn csv_reader_positional_and_given_headers() {
    let content = bv("7,x\n");
    let vals = csv_values(&content, &CsvHeaders::Positional, b',', b'"').unwrap();
    assert_eq!(
        vals,
        vec![Value::Object(vec![
            (bv("0"), Value::Int(7)),
            (bv("1"), Value::Str(bv("x"))),
        ])]
    );
    let vals = csv_values(
        &content,
        &CsvHeaders::Given(vec![bv("id"), bv("tag")]),
        b';',
        b'"',
    )
    .unwrap();
    // With a different delimiter the row is one cell; the extra header
    // is dropped.
    assert_eq!(
        vals,
        vec![Value::Object(vec![(bv("id"), Value::Str(bv("7,x")))])]
    );
}

#[test]
fn parser_accepts_nineteen_digit_integers_in_range() {
    assert_eq!(
        str_to_json("9223372036854775807"),
        Value::Int(9223372036854775807)
    );
    assert_eq!(
        str_to_json("-9223372036854775808"),
        Value::Int(i64::MIN)
    );
    // Out of the 64-bit range: carried as text.
    assert_eq!(
        str_to_json("9223372036854775808"),
        Value::Str(bv("9223372036854775808"))
    );
    assert_eq!(
        str_to_json("-9223372036854775809"),
        Value::Str(bv("-9223372036854775809"))
    );
}

#[test]
fn parser_decodes_basic_plane_unicode_escapes() {
    assert_eq!(str_to_json("\"\\u00e9\""), Value::Str("é".as_bytes().to_vec()));
    assert_eq!(str_to_json("\"\\u20ac\""), Value::Str("€".as_bytes().to_vec()));
    // Surrogates are not understood: the text stays text.
    assert_eq!(
        str_to_json("\"\\ud83d\\ude00\""),
        Value::Str(bv("\"\\ud83d\\ude00\""))
    );
}
