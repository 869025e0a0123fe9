//! Exact expected values for the verified rendering: decimal
//! formatting, level texts and whole console lines.

use tracepipe::data::{FieldValue, Level};
use tracepipe::render::{dec_i64, dec_u64, level_text, render_line};

#[test]
fn decimal_u64_exact() {
    assert_eq!(dec_u64(0), "0");
    assert_eq!(dec_u64(7), "7");
    assert_eq!(dec_u64(10), "10");
    assert_eq!(dec_u64(12345), "12345");
    assert_eq!(dec_u64(u64::MAX), "18446744073709551615");
}

#[test]
fn decimal_i64_exact() {
    assert_eq!(dec_i64(0), "0");
    assert_eq!(dec_i64(42), "42");
    assert_eq!(dec_i64(-42), "-42");
    assert_eq!(dec_i64(i64::MAX), "9223372036854775807");
    assert_eq!(dec_i64(i64::MIN), "-9223372036854775808");
}

#[test]
fn level_texts() {
    assert_eq!(level_text(Level::Trace), "TRACE");
    assert_eq!(level_text(Level::Debug), "DEBUG");
    assert_eq!(level_text(Level::Info), "INFO");
    assert_eq!(level_text(Level::Warn), "WARN");
    assert_eq!(level_text(Level::Error), "ERROR");
}

#[test]
fn line_with_span_name_and_fields() {
    let fields = vec![
        (String::from("metric"), FieldValue::Text(String::from("abc"))),
        (String::from("work_units"), FieldValue::Integer(2)),
        (String::from("ready"), FieldValue::Boolean(true)),
    ];
    let name = String::from("app_start");
    let line = render_line(Level::Info, Some(&name), "hello", &fields);
    assert_eq!(line, "[INFO] app_start: hello metric=abc work_units=2 ready=true");
}

#[test]
fn line_without_span_name() {
    let fields: Vec<(String, FieldValue)> = Vec::new();
    let line = render_line(Level::Warn, None, "trace export failed", &fields);
    assert_eq!(line, "[WARN] -: trace export failed");
}

#[test]
fn line_with_negative_integer_field() {
    let fields = vec![(String::from("delta"), FieldValue::Integer(-17))];
    let name = String::from("adjust");
    let line = render_line(Level::Error, Some(&name), "drift", &fields);
    assert_eq!(line, "[ERROR] adjust: drift delta=-17");
}
