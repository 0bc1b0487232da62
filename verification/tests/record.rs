use serde_cef::{
    from_str, to_string, value2str, CefError, CefRecord, CefSeverity, CefSignatureId, CefValue,
    Extension,
};

fn ext(key: &str, value: CefValue) -> Extension {
    Extension { key: key.to_string(), value }
}

fn text(raw: &str) -> CefValue {
    CefValue::String(raw.to_string())
}

fn sample() -> CefRecord<Vec<Extension>> {
    CefRecord {
        headers: None,
        version: 0,
        device_vendor: "Fake".to_string(),
        device_product: "Product".to_string(),
        device_version: "0.1".to_string(),
        signature_id: CefSignatureId::U64(0),
        signature: "Nothing".to_string(),
        severity: CefSeverity::U8(6),
        extensions: vec![ext("a", text("subtest")), ext("b", CefValue::U64(695217))],
    }
}

#[test]
fn writes_a_record() {
    assert_eq!(to_string(&sample()).unwrap(), "CEF:0|Fake|Product|0.1|0|Nothing|6|a=subtest b=695217");
}

#[test]
fn reads_a_record() {
    let record = from_str("CEF:0|Fake|Product|0.1|0|Nothing|6|a=subtest b=695217").unwrap();
    assert_eq!(record, sample());
}

#[test]
fn record_reads_back() {
    let mut record = sample();
    record.headers = Some("Sep 19 08:26:10 host ".to_string());
    record.version = 9;
    record.signature_id = CefSignatureId::String("CVE-2021-9999".to_string());
    record.severity = CefSeverity::String("Very-High".to_string());
    record.extensions = vec![
        ext("flag", CefValue::Bool(false)),
        ext("count", CefValue::U64(u64::MAX)),
        ext("delta", CefValue::I64(i64::MIN)),
        ext("ratio", CefValue::Float("3.14".to_string())),
        ext("name", text("a\\b")),
        ext("", text("")),
    ];
    let line = to_string(&record).unwrap();
    assert_eq!(
        line,
        "Sep 19 08:26:10 host CEF:9|Fake|Product|0.1|CVE-2021-9999|Nothing|Very-High|flag=false count=18446744073709551615 delta=-9223372036854775808 ratio=3.14 name=a\\b ="
    );
    assert_eq!(from_str(&line).unwrap(), record);
}

#[test]
fn record_without_extensions_reads_back() {
    let mut record = sample();
    record.extensions = vec![];
    let line = to_string(&record).unwrap();
    assert_eq!(line, "CEF:0|Fake|Product|0.1|0|Nothing|6|");
    assert_eq!(from_str(&line).unwrap(), record);
}

#[test]
fn text_that_looks_like_a_number_changes_type() {
    let mut record = sample();
    record.extensions = vec![ext("a", text("42")), ext("b", CefValue::Char('x')), ext("c", CefValue::I64(5))];
    let read = from_str(&to_string(&record).unwrap()).unwrap();
    assert_eq!(
        read.extensions,
        vec![ext("a", CefValue::U64(42)), ext("b", text("x")), ext("c", CefValue::U64(5))]
    );
}

#[test]
fn reads_a_record_with_a_prefix() {
    let record = from_str(
        "Sep 19 08:26:10 host CEF:0|Security|threatmanager|1.0|100|worm successfully stopped|10|src=10.0.0.1 dst=2.1.2.2 spt=1232",
    )
    .unwrap();
    assert_eq!(record.headers, Some("Sep 19 08:26:10 host ".to_string()));
    assert_eq!(record.version, 0);
    assert_eq!(record.device_vendor, "Security");
    assert_eq!(record.device_product, "threatmanager");
    assert_eq!(record.device_version, "1.0");
    assert_eq!(record.signature_id, CefSignatureId::U64(100));
    assert_eq!(record.signature, "worm successfully stopped");
    assert_eq!(record.severity, CefSeverity::U8(10));
    assert_eq!(
        record.extensions,
        vec![ext("src", text("10.0.0.1")), ext("dst", text("2.1.2.2")), ext("spt", CefValue::U64(1232))]
    );
}

#[test]
fn prefix_ends_at_the_last_header() {
    let record = from_str("x CEF:1|a|b|c|d|e|1|CEF:2|f|g|h|i|j|2|k=v").unwrap();
    assert_eq!(record.headers, Some("x CEF:1|a|b|c|d|e|1|".to_string()));
    assert_eq!(record.version, 2);
    assert_eq!(record.device_vendor, "f");
    assert_eq!(record.extensions, vec![ext("k", text("v"))]);
}

#[test]
fn line_that_begins_with_the_tag_has_no_prefix() {
    let record = from_str("CEF:1|a|b|c|d|e|1|x=CEF:2|f|g|h|i|j|2|k=v").unwrap();
    assert_eq!(record.headers, None);
    assert_eq!(record.version, 1);
    assert_eq!(record.extensions, vec![]);
    assert!(matches!(from_str("CEFx CEF:0|a|b|c|d|e|1|k=v"), Err(CefError::NoneError)));
}

#[test]
fn line_breaks_are_characters_like_others() {
    let record = from_str("a\nb CEF:0|a|b|c|d|e|1|k=v\nw").unwrap();
    assert_eq!(record.headers, Some("a\nb ".to_string()));
    assert_eq!(record.extensions, vec![ext("k", text("v\nw"))]);
}

#[test]
fn version_is_an_ascii_digit() {
    assert!(matches!(from_str("CEF:\u{663}|a|b|c|d|e|1|k=v"), Err(CefError::NoneError)));
    assert_eq!(from_str("CEF:7|a|b|c|d|e|1|k=v").unwrap().version, 7);
}

#[test]
fn extensions_may_hold_pipes() {
    let record = from_str("CEF:0|a|b|c|d|e|1|k=v|w").unwrap();
    assert_eq!(record.extensions, vec![ext("k", text("v|w"))]);
}

#[test]
fn malformed_extensions_give_an_empty_list() {
    let record = from_str("CEF:0|a|b|c|d|e|1|dangling").unwrap();
    assert_eq!(record.extensions, vec![]);
}

#[test]
fn line_without_header_is_refused() {
    assert!(matches!(from_str(""), Err(CefError::NoneError)));
    assert!(matches!(from_str("no record here"), Err(CefError::NoneError)));
    assert!(matches!(from_str("CEF:0|a|b|c|d|e|1"), Err(CefError::NoneError)));
    assert!(matches!(from_str("CEF:0|a|b||d|e|1|k=v"), Err(CefError::NoneError)));
    assert!(matches!(from_str("CEF:10|a|b|c|d|e|1|k=v"), Err(CefError::NoneError)));
    assert!(matches!(from_str("CEF:x|a|b|c|d|e|1|k=v"), Err(CefError::NoneError)));
    assert!(matches!(from_str("CEF0|a|b|c|d|e|1|k=v"), Err(CefError::NoneError)));
}

#[test]
fn severity_bounds() {
    for level in 0u8..=10 {
        let raw = level.to_string();
        assert_eq!(CefSeverity::try_from(raw.as_str()).unwrap(), CefSeverity::U8(level));
    }
    for raw in ["11", "255"] {
        match CefSeverity::try_from(raw) {
            Err(CefError::ValidationError(msg)) => {
                assert_eq!(msg, "Invalid Cef Level, MUST be between 0 to 10")
            }
            other => panic!("{:?}", other),
        }
    }
    for raw in ["-1", "256", "low", "Critical", "", "1.5"] {
        match CefSeverity::try_from(raw) {
            Err(CefError::ValidationError(msg)) => assert_eq!(
                msg,
                "Invalid Cef Level, MUST be between Unknown, Low, Medium, High or Very-High"
            ),
            other => panic!("{:?}", other),
        }
    }
}

#[test]
fn severity_names() {
    for raw in ["Unknown", "Low", "Medium", "High", "Very-High"] {
        assert_eq!(CefSeverity::try_from(raw).unwrap(), CefSeverity::String(raw.to_string()));
    }
}

#[test]
fn severity_in_a_line_is_checked() {
    assert!(from_str("CEF:0|a|b|c|d|e|10|k=v").is_ok());
    assert!(matches!(from_str("CEF:0|a|b|c|d|e|11|k=v"), Err(CefError::ValidationError(_))));
    assert!(matches!(from_str("CEF:0|a|b|c|d|e|-1|k=v"), Err(CefError::ValidationError(_))));
    assert!(matches!(from_str("CEF:0|a|b|c|d|e|Severe|k=v"), Err(CefError::ValidationError(_))));
}

#[test]
fn severity_level() {
    assert_eq!(u8::from(CefSeverity::String("Unknown".to_string())), 0);
    assert_eq!(u8::from(CefSeverity::String("Low".to_string())), 1);
    assert_eq!(u8::from(CefSeverity::String("Medium".to_string())), 4);
    assert_eq!(u8::from(CefSeverity::String("High".to_string())), 7);
    assert_eq!(u8::from(CefSeverity::String("Very-High".to_string())), 9);
    assert_eq!(u8::from(CefSeverity::String("other".to_string())), 0);
    assert_eq!(u8::from(CefSeverity::U8(8)), 8);
}

#[test]
fn severity_text() {
    assert_eq!(CefSeverity::U8(10).to_string(), "10");
    assert_eq!(CefSeverity::U8(0).to_string(), "0");
    assert_eq!(CefSeverity::String("High".to_string()).to_string(), "High");
}

#[test]
fn signature_id() {
    assert_eq!(CefSignatureId::from("42"), CefSignatureId::U64(42));
    assert_eq!(CefSignatureId::from("CVE-2021-9999"), CefSignatureId::String("CVE-2021-9999".to_string()));
    assert_eq!(CefSignatureId::from("-1"), CefSignatureId::String("-1".to_string()));
    assert_eq!(
        CefSignatureId::from("18446744073709551616"),
        CefSignatureId::String("18446744073709551616".to_string())
    );
}

#[test]
fn signature_id_text() {
    assert_eq!(CefSignatureId::U64(42).to_string(), "42");
    assert_eq!(CefSignatureId::U64(u64::MAX).to_string(), "18446744073709551615");
    assert_eq!(CefSignatureId::String("CVE-2021-9999".to_string()).to_string(), "CVE-2021-9999");
}

#[test]
fn scalars_as_text() {
    assert_eq!(value2str(&CefValue::Bool(true)).unwrap(), "true");
    assert_eq!(value2str(&CefValue::Bool(false)).unwrap(), "false");
    assert_eq!(value2str(&CefValue::U64(0)).unwrap(), "0");
    assert_eq!(value2str(&CefValue::U64(1232)).unwrap(), "1232");
    assert_eq!(value2str(&CefValue::I64(-5)).unwrap(), "-5");
    assert_eq!(value2str(&CefValue::I64(5)).unwrap(), "5");
    assert_eq!(value2str(&CefValue::I64(i64::MIN)).unwrap(), "-9223372036854775808");
    assert_eq!(value2str(&CefValue::Float("3.14".to_string())).unwrap(), "3.14");
    assert_eq!(value2str(&CefValue::Char('x')).unwrap(), "x");
    assert_eq!(value2str(&text("a b")).unwrap(), "a b");
}

#[test]
fn composite_is_refused() {
    match value2str(&CefValue::Composite) {
        Err(CefError::ValidationError(msg)) => assert_eq!(msg, "Invalid data: the value is no scalar"),
        other => panic!("{:?}", other),
    }
    let mut record = sample();
    record.extensions.push(ext("c", CefValue::Composite));
    assert!(matches!(to_string(&record), Err(CefError::ValidationError(_))));
}

#[test]
fn writes_the_prefix_and_a_wide_version() {
    let mut record = sample();
    record.headers = Some("host ".to_string());
    record.version = 12;
    record.extensions = vec![];
    assert_eq!(to_string(&record).unwrap(), "host CEF:12|Fake|Product|0.1|0|Nothing|6|");
}

#[test]
fn error_messages() {
    assert_eq!(CefError::from("went wrong").to_string(), "went wrong");
    assert_eq!(CefError::NoneError.to_string(), "Empty option!");
    assert_eq!(CefError::ValidationError("bad".to_string()).to_string(), "bad");
}
