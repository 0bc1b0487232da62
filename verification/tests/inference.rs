use serde_cef::{try_detect_type, CefValue};

fn text(raw: &str) -> CefValue {
    CefValue::String(raw.to_string())
}

fn float(raw: &str) -> CefValue {
    CefValue::Float(raw.to_string())
}

#[test]
fn infers_boolean() {
    assert_eq!(try_detect_type("true"), CefValue::Bool(true));
    assert_eq!(try_detect_type("false"), CefValue::Bool(false));
}

#[test]
fn boolean_is_exact() {
    assert_eq!(try_detect_type("True"), text("True"));
    assert_eq!(try_detect_type("FALSE"), text("FALSE"));
    assert_eq!(try_detect_type("true "), text("true "));
}

#[test]
fn infers_unsigned() {
    assert_eq!(try_detect_type("695217"), CefValue::U64(695217));
    assert_eq!(try_detect_type("7"), CefValue::U64(7));
    assert_eq!(try_detect_type("0"), CefValue::U64(0));
    assert_eq!(try_detect_type("007"), CefValue::U64(7));
    assert_eq!(try_detect_type("+7"), CefValue::U64(7));
    assert_eq!(try_detect_type("18446744073709551615"), CefValue::U64(u64::MAX));
}

#[test]
fn infers_signed() {
    assert_eq!(try_detect_type("-5"), CefValue::I64(-5));
    assert_eq!(try_detect_type("-0"), CefValue::I64(0));
    assert_eq!(try_detect_type("-9223372036854775808"), CefValue::I64(i64::MIN));
}

#[test]
fn infers_float() {
    assert_eq!(try_detect_type("3.14"), float("3.14"));
    assert_eq!(try_detect_type("-3.14"), float("-3.14"));
    assert_eq!(try_detect_type("1."), float("1."));
    assert_eq!(try_detect_type(".5"), float(".5"));
    assert_eq!(try_detect_type("1e5"), float("1e5"));
    assert_eq!(try_detect_type("1E-5"), float("1E-5"));
    assert_eq!(try_detect_type("2.5e+10"), float("2.5e+10"));
    assert_eq!(try_detect_type("inf"), float("inf"));
    assert_eq!(try_detect_type("-Infinity"), float("-Infinity"));
    assert_eq!(try_detect_type("NaN"), float("NaN"));
}

#[test]
fn integer_out_of_range_is_float() {
    assert_eq!(try_detect_type("18446744073709551616"), float("18446744073709551616"));
    assert_eq!(try_detect_type("-9223372036854775809"), float("-9223372036854775809"));
}

#[test]
fn falls_back_to_string() {
    assert_eq!(try_detect_type("subtest"), text("subtest"));
    assert_eq!(try_detect_type(""), text(""));
    assert_eq!(try_detect_type("-"), text("-"));
    assert_eq!(try_detect_type("+"), text("+"));
    assert_eq!(try_detect_type("."), text("."));
    assert_eq!(try_detect_type("1e"), text("1e"));
    assert_eq!(try_detect_type("1e+"), text("1e+"));
    assert_eq!(try_detect_type("e5"), text("e5"));
    assert_eq!(try_detect_type("0x10"), text("0x10"));
    assert_eq!(try_detect_type(" 1"), text(" 1"));
    assert_eq!(try_detect_type("1 "), text("1 "));
    assert_eq!(try_detect_type("1_000"), text("1_000"));
    assert_eq!(try_detect_type("10.0.0.1"), text("10.0.0.1"));
    assert_eq!(try_detect_type("--1"), text("--1"));
    assert_eq!(try_detect_type("+-1"), text("+-1"));
    assert_eq!(try_detect_type("infinit"), text("infinit"));
    assert_eq!(try_detect_type("nanx"), text("nanx"));
    assert_eq!(try_detect_type("1.2.3"), text("1.2.3"));
}

#[test]
fn inference_agrees_with_the_standard_parsers() {
    let samples = [
        "", "0", "1", "+1", "-1", "+", "-", "++1", "1+", "12a", "a12", "007", "-007", "255", "256",
        "18446744073709551615", "18446744073709551616", "9223372036854775807",
        "9223372036854775808", "-9223372036854775808", "-9223372036854775809", "1.0", "1.", ".1",
        ".", "+.5", "-.5", "+.", "1e1", "1e", "1e+", "1e-1", "1E1", "e1", ".e1", "1.e1", "1.5e300",
        "1e400", "1e-400", "inf", "INF", "Inf", "+inf", "-inf", "infinity", "INFINITY", "infinit",
        "nan", "NAN", "NaN", "-nan", "+nan", "nano", "true", "false", "True", " 1", "1 ", "1 2",
        "1,5", "1_0", "0x1", "1f", "1.5f", "--1", "1..2", "1e1e1", "1e1.5", "\u{663}", "1\u{663}",
        "\u{212a}", "i\u{307}nf",
    ];
    for raw in samples {
        let expected = if let Ok(data) = raw.parse::<bool>() {
            CefValue::Bool(data)
        } else if let Ok(data) = raw.parse::<u64>() {
            CefValue::U64(data)
        } else if let Ok(data) = raw.parse::<i64>() {
            CefValue::I64(data)
        } else if raw.parse::<f64>().is_ok() {
            CefValue::Float(raw.to_string())
        } else {
            CefValue::String(raw.to_string())
        };
        assert_eq!(try_detect_type(raw), expected, "{:?}", raw);
    }
}
