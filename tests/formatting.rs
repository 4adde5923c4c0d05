use tracing_bunyan_formatter::{
    emit, encode_record, encode_value, format_event_message, format_log_level, format_record,
    format_record_at, frame_member, frame_object, is_reserved, record_fields, set_field, text_equals,
    text_field, BunyanFormattingLayer, EventData, is_number_text, Field, FieldValue, FormatError, Severity,
    SpanData,
};

fn field(key: &str, value: FieldValue) -> Field {
    Field { key: key.to_string(), value }
}

fn event(target: &str, level: Severity, fields: Vec<Field>) -> EventData {
    EventData {
        target: target.to_string(),
        level,
        file: Some("src/handler.rs".to_string()),
        line: Some(42),
        fields,
    }
}

fn parse(line: &str) -> serde_json::Map<String, serde_json::Value> {
    let value: serde_json::Value = serde_json::from_str(line).expect("valid JSON");
    match value {
        serde_json::Value::Object(map) => map,
        other => panic!("not an object: {}", other),
    }
}

fn keys(fields: &[Field]) -> Vec<String> {
    fields.iter().map(|f| f.key.clone()).collect()
}

#[test]
fn message_from_string_field() {
    let e = event("app", Severity::Info, vec![field("message", FieldValue::Str("hello".to_string()))]);
    assert_eq!(format_event_message(&e), "hello");
    let line = format_record_at(&e, None, "2024-01-01T00:00:00+00:00").unwrap();
    assert_eq!(parse(&line)["msg"], serde_json::Value::String("hello".to_string()));
}

#[test]
fn message_from_non_string_field_falls_back_to_target() {
    let e = event("app::handler", Severity::Info, vec![field("message", FieldValue::Number("42".to_string()))]);
    assert_eq!(format_event_message(&e), "app::handler");
}

#[test]
fn message_missing_falls_back_to_target() {
    let e = event("app::handler", Severity::Warn, vec![field("status", FieldValue::Number("200".to_string()))]);
    assert_eq!(format_event_message(&e), "app::handler");
}

#[test]
fn level_labels() {
    assert_eq!(format_log_level(Severity::Error), "ERROR");
    assert_eq!(format_log_level(Severity::Warn), "WARN");
    assert_eq!(format_log_level(Severity::Info), "INFO");
    assert_eq!(format_log_level(Severity::Debug), "DEBUG");
    assert_eq!(format_log_level(Severity::Trace), "TRACE");
    assert_eq!(format_log_level(Severity::Debug), format_log_level(Severity::Debug));
}

#[test]
fn exact_line_without_span() {
    let e = EventData {
        target: "t".to_string(),
        level: Severity::Info,
        file: None,
        line: Some(7),
        fields: vec![
            field("message", FieldValue::Str("hi".to_string())),
            field("ok", FieldValue::Bool(true)),
            field("gone", FieldValue::Null),
        ],
    };
    let line = format_record_at(&e, None, "T").unwrap();
    assert_eq!(
        line,
        "{\"msg\":\"hi\",\"level\":\"INFO\",\"time\":\"T\",\"target\":\"t\",\"line\":7,\"file\":null,\"ok\":true,\"gone\":null}\n"
    );
}

#[test]
fn no_span_means_no_event_field() {
    let e = event("app", Severity::Debug, vec![field("a", FieldValue::Bool(false))]);
    let fields = record_fields(&e, None, "T");
    assert_eq!(keys(&fields), vec!["msg", "level", "time", "target", "line", "file", "a"]);
    let map = parse(&format_record_at(&e, None, "T").unwrap());
    assert!(!map.contains_key("event"));
    assert_eq!(map["line"], serde_json::Value::Number(42u32.into()));
}

#[test]
fn span_adds_event_and_span_fields() {
    let e = event("app", Severity::Trace, vec![field("a", FieldValue::Bool(false))]);
    let s = SpanData { name: "outer".to_string(), fields: vec![field("b", FieldValue::Str("x".to_string()))] };
    let fields = record_fields(&e, Some(&s), "T");
    assert_eq!(keys(&fields), vec!["msg", "level", "time", "event", "target", "line", "file", "a", "b"]);
    let map = parse(&format_record_at(&e, Some(&s), "T").unwrap());
    assert_eq!(map["event"], serde_json::Value::String("outer".to_string()));
    assert_eq!(map["b"], serde_json::Value::String("x".to_string()));
}

#[test]
fn reserved_names_are_dropped() {
    let e = event(
        "app",
        Severity::Error,
        vec![
            field("msg", FieldValue::Str("forged".to_string())),
            field("level", FieldValue::Str("forged".to_string())),
            field("keep", FieldValue::Number("1".to_string())),
        ],
    );
    let s = SpanData {
        name: "sp".to_string(),
        fields: vec![
            field("time", FieldValue::Str("forged".to_string())),
            field("msg", FieldValue::Str("forged".to_string())),
        ],
    };
    let fields = record_fields(&e, Some(&s), "now");
    assert_eq!(keys(&fields), vec!["msg", "level", "time", "event", "target", "line", "file", "keep"]);
    let line = format_record_at(&e, Some(&s), "now").unwrap();
    assert!(!line.contains("forged"));
    let map = parse(&line);
    assert_eq!(map["msg"], serde_json::Value::String("app".to_string()));
    assert_eq!(map["level"], serde_json::Value::String("ERROR".to_string()));
    assert_eq!(map["time"], serde_json::Value::String("now".to_string()));
}

#[test]
fn end_to_end_example() {
    let e = EventData {
        target: "app::handler".to_string(),
        level: Severity::Info,
        file: Some("src/handler.rs".to_string()),
        line: Some(10),
        fields: vec![
            field("message", FieldValue::Str("request handled".to_string())),
            field("status", FieldValue::Number("200".to_string())),
        ],
    };
    let s = SpanData {
        name: "request".to_string(),
        fields: vec![field("request_id", FieldValue::Str("abc-123".to_string()))],
    };
    let layer = BunyanFormattingLayer::new(0u8);
    assert_eq!(*layer.make_writer(), 0u8);
    let line = layer.format_event(&e, Some(&s)).unwrap();
    assert!(line.ends_with('\n'));
    assert_eq!(line.matches('\n').count(), 1);
    let map = parse(&line);
    assert_eq!(map["msg"], serde_json::Value::String("request handled".to_string()));
    assert_eq!(map["level"], serde_json::Value::String("INFO".to_string()));
    assert_eq!(map["event"], serde_json::Value::String("request".to_string()));
    assert_eq!(map["target"], serde_json::Value::String("app::handler".to_string()));
    assert_eq!(map["status"], serde_json::Value::Number(200u32.into()));
    assert_eq!(map["request_id"], serde_json::Value::String("abc-123".to_string()));
    let time = map["time"].as_str().expect("time is a string");
    assert!(chrono::DateTime::parse_from_rfc3339(time).is_ok());
}

#[test]
fn every_line_is_one_json_object() {
    let e = event(
        "weird",
        Severity::Warn,
        vec![
            field("text", FieldValue::Str("line\nbreak \"quoted\" \\ tab\t".to_string())),
            field("message", FieldValue::Str("{not an object}".to_string())),
        ],
    );
    let line = format_record(&e, None).unwrap();
    assert_eq!(line.matches('\n').count(), 1);
    assert!(line.ends_with("}\n"));
    let map = parse(&line);
    assert_eq!(map["text"], serde_json::Value::String("line\nbreak \"quoted\" \\ tab\t".to_string()));
}

#[test]
fn string_values_are_escaped() {
    let r = encode_value(&FieldValue::Str("a\"b".to_string())).unwrap();
    assert_eq!(r, "\"a\\\"b\"");
    assert_eq!(encode_value(&FieldValue::Null).unwrap(), "null");
    assert_eq!(encode_value(&FieldValue::Bool(false)).unwrap(), "false");
    assert_eq!(encode_value(&FieldValue::Number("-1.5".to_string())).unwrap(), "-1.5");
}

#[test]
fn line_number_is_decimal() {
    let mut e = event("t", Severity::Info, vec![]);
    e.line = Some(4_294_967_295);
    let line = format_record_at(&e, None, "T").unwrap();
    assert!(line.contains("\"line\":4294967295,"));
    e.line = None;
    let line = format_record_at(&e, None, "T").unwrap();
    assert!(line.contains("\"line\":null,"));
}

#[test]
fn framing_helpers() {
    assert_eq!(frame_object(&vec![]), "{}");
    assert_eq!(frame_object(&vec!["\"a\":1".to_string(), "\"b\":2".to_string()]), "{\"a\":1,\"b\":2}");
    assert_eq!(frame_member("\"k\"", "true"), "\"k\":true");
    assert_eq!(emit("{}".to_string()), "{}\n");
    let r = encode_record(&vec![text_field("k", "v")]).unwrap();
    assert_eq!(r, "{\"k\":\"v\"}");
}

#[test]
fn reserved_names() {
    assert!(is_reserved("msg"));
    assert!(is_reserved("level"));
    assert!(is_reserved("time"));
    assert!(!is_reserved("message"));
    assert!(!is_reserved("times"));
    assert!(!is_reserved(""));
    assert!(text_equals("abc", "abc"));
    assert!(!text_equals("abc", "abd"));
    assert!(!text_equals("ab", "abc"));
}

#[test]
fn later_value_replaces_earlier() {
    let mut fields = vec![field("a", FieldValue::Bool(true)), field("b", FieldValue::Null)];
    set_field(&mut fields, field("a", FieldValue::Number("3".to_string())));
    set_field(&mut fields, field("c", FieldValue::Str("z".to_string())));
    assert_eq!(keys(&fields), vec!["a", "b", "c"]);
    assert!(matches!(&fields[0].value, FieldValue::Number(n) if n == "3"));
    assert!(matches!(&fields[2].value, FieldValue::Str(s) if s == "z"));
}

#[test]
fn nested_values_are_written_compactly() {
    let inner = FieldValue::Object(vec![field("k", FieldValue::Null), field("n", FieldValue::Number("-2".to_string()))]);
    let v = FieldValue::Array(vec![FieldValue::Number("1".to_string()), FieldValue::Str("a".to_string()), inner]);
    assert_eq!(encode_value(&v).unwrap(), "[1,\"a\",{\"k\":null,\"n\":-2}]");
    assert_eq!(encode_value(&FieldValue::Array(vec![])).unwrap(), "[]");
    assert_eq!(encode_value(&FieldValue::Object(vec![])).unwrap(), "{}");
    let copy = v.duplicate();
    assert_eq!(encode_value(&copy).unwrap(), encode_value(&v).unwrap());
    let e = event("t", Severity::Info, vec![field("list", v)]);
    let map = parse(&format_record_at(&e, None, "T").unwrap());
    assert_eq!(map["list"][2]["n"], serde_json::Value::Number((-2i32).into()));
}

#[test]
fn invalid_number_drops_the_record() {
    let e = event("t", Severity::Info, vec![field("n", FieldValue::Number("12\n}".to_string()))]);
    assert_eq!(format_record_at(&e, None, "T"), Err(FormatError::InvalidNumber));
    let nested = FieldValue::Array(vec![FieldValue::Number("01".to_string())]);
    assert_eq!(encode_value(&nested), Err(FormatError::InvalidNumber));
    let s = SpanData { name: "sp".to_string(), fields: vec![field("x", FieldValue::Number("".to_string()))] };
    let ok = event("t", Severity::Info, vec![]);
    assert_eq!(format_record(&ok, Some(&s)), Err(FormatError::InvalidNumber));
    let dropped = SpanData { name: "sp".to_string(), fields: vec![field("time", FieldValue::Number("x".to_string()))] };
    assert!(format_record_at(&ok, Some(&dropped), "T").is_ok());
}

#[test]
fn number_literals() {
    for good in ["0", "-0", "7", "200", "-12.50", "1e9", "1E+2", "3.25e-7"] {
        assert!(is_number_text(good), "{}", good);
    }
    for bad in ["", "-", "01", "1.", ".5", "1e", "1e+", "+1", "1 ", "NaN", "0x10", "1.2.3"] {
        assert!(!is_number_text(bad), "{}", bad);
    }
}

#[test]
fn time_is_utc_rfc3339() {
    let e = event("t", Severity::Info, vec![]);
    let map = parse(&format_record(&e, None).unwrap());
    let time = map["time"].as_str().unwrap().to_string();
    assert!(time.ends_with("+00:00"));
    assert!(chrono::DateTime::parse_from_rfc3339(&time).is_ok());
}

#[test]
fn control_characters_are_escaped() {
    let r = encode_value(&FieldValue::Str("\u{1}\u{1f}\u{8}\u{c}\r\t\\/é".to_string())).unwrap();
    assert_eq!(r, "\"\\u0001\\u001f\\b\\f\\r\\t\\\\/é\"");
}
