use serde_cef::{
    extract_hostname_from_headers, extract_ts_from_headers, first_reading, from_str, now, parse_ts,
    unix_strtime_to_unix, CefError, CefRecord, PreciseTimestamp, Timestamp,
};

fn instant(secs: i64, nanos: u32) -> Timestamp {
    Timestamp::Instant(PreciseTimestamp { secs, nanos })
}

#[test]
fn reads_a_number_of_seconds() {
    let at = parse_ts("1561554774.901402", 2019).unwrap();
    assert_eq!(at, Timestamp::Number("1561554774.901402".to_string()));
    match at {
        Timestamp::Number(text) => assert_eq!(text.parse::<f64>().unwrap(), 1561554774.901402),
        Timestamp::Instant(_) => unreachable!(),
    }
}

#[test]
fn reads_a_date_without_year() {
    assert_eq!(parse_ts("Dec 19 01:07:56", 2019).unwrap(), instant(1576717676, 0));
    assert_eq!(parse_ts("Feb 29 23:59:59", 2024).unwrap(), instant(1709251199, 0));
    assert!(matches!(parse_ts("Feb 29 23:59:59", 2023), Err(CefError::InvalidDateFormat(_))));
}

#[test]
fn number_of_seconds_needs_no_year() {
    for year in [-1, 0, 1970, 2019, i32::MAX, i32::MIN] {
        assert_eq!(parse_ts("1e9", year).unwrap(), Timestamp::Number("1e9".to_string()));
    }
    assert_eq!(unix_strtime_to_unix("1e9"), Some(Timestamp::Number("1e9".to_string())));
    assert_eq!(unix_strtime_to_unix("Dec 19 01:07:56"), None);
}

#[test]
fn reads_a_date_of_rfc_3339() {
    assert_eq!(parse_ts("2019-06-26T15:21:55+02:00", 2000).unwrap(), instant(1561555315, 0));
    assert_eq!(
        parse_ts("2019-06-26T13:21:55.5Z", 2000).unwrap(),
        instant(1561555315, 500_000_000)
    );
}

#[test]
fn reads_an_english_date() {
    assert_eq!(
        parse_ts("26/Jun/2019 15:21:55.152120022 +0200", 2000).unwrap(),
        instant(1561555315, 152_120_022)
    );
}

#[test]
fn refuses_what_is_no_date() {
    match parse_ts("garbage", 2019) {
        Err(err) => {
            assert!(matches!(err, CefError::InvalidDateFormat(_)));
            assert_eq!(err.to_string(), "input contains invalid characters");
        }
        Ok(at) => panic!("{:?}", at),
    }
    match parse_ts("", 2019) {
        Err(err) => assert_eq!(err.to_string(), "premature end of input"),
        Ok(at) => panic!("{:?}", at),
    }
}

#[test]
fn timestamp_of_a_syslog_header() {
    assert_eq!(
        extract_ts_from_headers("Sep 19 08:26:10 host ", 2019).unwrap(),
        instant(1568881570, 0)
    );
    assert_eq!(
        CefRecord::<()>::extract_ts_from_headers("Sep 19 08:26:10 host ", 2019).unwrap(),
        PreciseTimestamp { secs: 1568881570, nanos: 0 }
    );
}

#[test]
fn short_syslog_header_has_no_timestamp() {
    assert!(matches!(extract_ts_from_headers("Sep 19", 2019), Err(CefError::InvalidDateFormat(_))));
    assert!(matches!(extract_ts_from_headers("", 2019), Err(CefError::InvalidDateFormat(_))));
    assert!(matches!(
        CefRecord::<()>::extract_ts_from_headers("1561554774.9014", 2019),
        Err(CefError::InvalidDateFormat(_))
    ));
    assert!(matches!(
        extract_ts_from_headers("1561554774.9014", 2019),
        Err(CefError::InvalidDateFormat(_))
    ));
}

#[test]
fn hostname_of_a_line() {
    let line = "Sep 19 08:26:10 host CEF:0|Security|threatmanager|1.0|100|worm successfully stopped|10|src=10.0.0.1";
    assert_eq!(extract_hostname_from_headers(line).unwrap(), "host");
    assert_eq!(CefRecord::<()>::extract_hostname_from_headers(line).unwrap(), "host");
    assert_eq!(extract_hostname_from_headers("a b CEF:1 c d CEF:2").unwrap(), "d");
    assert_eq!(extract_hostname_from_headers("a\tb\u{a0}CEF:12").unwrap(), "b");
    assert_eq!(extract_hostname_from_headers("a host  CEF:0").unwrap(), "host");
    assert_eq!(extract_hostname_from_headers("a\n host \t CEF:0").unwrap(), "host");
}

#[test]
fn line_without_hostname() {
    assert!(matches!(extract_hostname_from_headers("Sep 19 08:26:10 host"), Err(CefError::NoneError)));
    assert!(matches!(extract_hostname_from_headers("host "), Err(CefError::NoneError)));
    assert!(matches!(extract_hostname_from_headers("  "), Err(CefError::NoneError)));
    assert!(matches!(extract_hostname_from_headers("host CEF:0|"), Err(CefError::NoneError)));
    assert!(matches!(extract_hostname_from_headers("a hostCEF:0|"), Err(CefError::NoneError)));
    assert!(matches!(extract_hostname_from_headers("a host CEF:|"), Err(CefError::NoneError)));
    assert!(matches!(extract_hostname_from_headers(" CEF:0"), Err(CefError::NoneError)));
    assert!(matches!(extract_hostname_from_headers("  CEF:0"), Err(CefError::NoneError)));
    assert!(matches!(extract_hostname_from_headers("host  CEF:0"), Err(CefError::NoneError)));
    assert!(matches!(extract_hostname_from_headers(""), Err(CefError::NoneError)));
}

#[test]
fn clock_shows_a_time_after_2019() {
    let at = now().unwrap();
    assert!(at.secs > 1_561_554_774);
    assert!(at.nanos < 1_000_000_000);
    let again = PreciseTimestamp::now().unwrap();
    assert!(again.secs >= at.secs);
}

#[test]
fn white_space_is_what_unicode_says() {
    for code in 0u32..0x3_0000 {
        let c = match char::from_u32(code) {
            Some(c) => c,
            None => continue,
        };
        let line = format!("a{}b{}CEF:0", c, c);
        match extract_hostname_from_headers(&line) {
            Ok(host) => {
                assert!(c.is_whitespace(), "{:?}", c);
                assert_eq!(host, "b");
            }
            Err(_) => assert!(!c.is_whitespace(), "{:?}", c),
        }
    }
}

#[test]
fn time_of_a_clock_reading() {
    assert_eq!(
        PreciseTimestamp::from_clock(Some((1_561_554_774, 901_402_000))),
        Some(PreciseTimestamp { secs: 1_561_554_774, nanos: 901_402_000 })
    );
    assert_eq!(PreciseTimestamp::from_clock(Some((0, 0))), Some(PreciseTimestamp { secs: 0, nanos: 0 }));
    assert_eq!(
        PreciseTimestamp::from_clock(Some((i64::MAX as u64, 5))),
        Some(PreciseTimestamp { secs: i64::MAX, nanos: 5 })
    );
    assert_eq!(PreciseTimestamp::from_clock(Some((i64::MAX as u64 + 1, 5))), None);
    assert_eq!(PreciseTimestamp::from_clock(None), None);
}

#[test]
fn hostname_of_a_prefix() {
    assert_eq!(extract_hostname_from_headers("Sep 19 08:26:10 host ").unwrap(), "host");
    assert_eq!(CefRecord::<()>::extract_hostname_from_headers("Sep 19 08:26:10 host ").unwrap(), "host");
    assert_eq!(extract_hostname_from_headers("a host \t ").unwrap(), "host");
    assert_eq!(extract_hostname_from_headers(" h ").unwrap(), "h");
}

#[test]
fn hostname_of_the_prefix_that_is_read() {
    let line = "Sep 19 08:26:10 host CEF:0|Security|threatmanager|1.0|100|worm successfully stopped|10|src=10.0.0.1";
    let record = from_str(line).unwrap();
    let prefix = record.headers.unwrap();
    assert_eq!(prefix, "Sep 19 08:26:10 host ");
    assert_eq!(extract_hostname_from_headers(&prefix).unwrap(), "host");
    assert_eq!(extract_hostname_from_headers(line).unwrap(), "host");
}

fn at(secs: i64) -> PreciseTimestamp {
    PreciseTimestamp { secs, nanos: 0 }
}

#[test]
fn first_reading_that_succeeded_is_taken() {
    let number = || Some(Timestamp::Number("1.5".to_string()));
    let fails = || Err(CefError::NoneError);
    assert_eq!(
        first_reading(number(), Ok(at(1)), Ok(at(2)), Ok(at(3))).unwrap(),
        Timestamp::Number("1.5".to_string())
    );
    assert_eq!(first_reading(number(), fails(), fails(), fails()).unwrap(), Timestamp::Number("1.5".to_string()));
    assert_eq!(first_reading(None, Ok(at(1)), Ok(at(2)), Ok(at(3))).unwrap(), instant(1, 0));
    assert_eq!(first_reading(None, fails(), Ok(at(2)), Ok(at(3))).unwrap(), instant(2, 0));
    assert_eq!(first_reading(None, fails(), fails(), Ok(at(3))).unwrap(), instant(3, 0));
    assert_eq!(first_reading(None, Ok(at(1)), fails(), fails()).unwrap(), instant(1, 0));
}

#[test]
fn last_error_is_handed_on() {
    let failed = first_reading(
        None,
        Err(CefError::from("native")),
        Err(CefError::from("rfc3339")),
        Err(CefError::from("english")),
    );
    match failed {
        Err(err) => assert_eq!(err.to_string(), "english"),
        Ok(at) => panic!("{:?}", at),
    }
}
