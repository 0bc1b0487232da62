use serde_cef::{parse_extensions, CefValue, Extension};

fn ext(key: &str, value: CefValue) -> Extension {
    Extension { key: key.to_string(), value }
}

fn text(raw: &str) -> CefValue {
    CefValue::String(raw.to_string())
}

#[test]
fn tokenizer_reads_three_pairs() {
    let pairs = parse_extensions("src=10.0.0.1 dst=2.1.2.2 spt=1232");
    assert_eq!(
        pairs,
        vec![ext("src", text("10.0.0.1")), ext("dst", text("2.1.2.2")), ext("spt", CefValue::U64(1232))]
    );
}

#[test]
fn tokenizer_keeps_the_order_of_the_line() {
    let pairs = parse_extensions("b=1 a=2 b=3");
    assert_eq!(
        pairs,
        vec![ext("b", CefValue::U64(1)), ext("a", CefValue::U64(2)), ext("b", CefValue::U64(3))]
    );
}

#[test]
fn escaped_separator_stays_in_the_value() {
    let pairs = parse_extensions("a=b\\=c d=e");
    assert_eq!(pairs, vec![ext("a", text("b\\=c")), ext("d", text("e"))]);
}

#[test]
fn escaped_separator_at_the_end() {
    let pairs = parse_extensions("msg=x\\=");
    assert_eq!(pairs, vec![ext("msg", text("x\\="))]);
}

#[test]
fn value_may_hold_spaces() {
    let pairs = parse_extensions("msg=worm successfully stopped cnt=3");
    assert_eq!(pairs, vec![ext("msg", text("worm successfully stopped")), ext("cnt", CefValue::U64(3))]);
}

#[test]
fn last_value_may_hold_spaces() {
    let pairs = parse_extensions("a=b c=d e");
    assert_eq!(pairs, vec![ext("a", text("b")), ext("c", text("d e"))]);
}

#[test]
fn doubled_space_stays_in_the_value() {
    let pairs = parse_extensions("a=x  b=c");
    assert_eq!(pairs, vec![ext("a", text("x ")), ext("b", text("c"))]);
}

#[test]
fn empty_values() {
    assert_eq!(parse_extensions("a="), vec![ext("a", text(""))]);
    assert_eq!(parse_extensions("a= b=c"), vec![ext("a", text("")), ext("b", text("c"))]);
}

#[test]
fn separator_at_the_start() {
    assert_eq!(parse_extensions("=v"), vec![ext("", text("v"))]);
}

#[test]
fn key_after_a_wide_character() {
    assert_eq!(parse_extensions("\u{e9}=1"), vec![ext("\u{e9}", CefValue::U64(1))]);
}

#[test]
fn dangling_key_gives_nothing() {
    assert_eq!(parse_extensions("src=10.0.0.1 dst"), vec![ext("src", text("10.0.0.1 dst"))]);
    assert_eq!(parse_extensions("dangling"), vec![]);
    assert_eq!(parse_extensions(""), vec![]);
}

#[test]
fn odd_count_of_tokens_gives_nothing() {
    assert_eq!(parse_extensions("a b=c"), vec![]);
    assert_eq!(parse_extensions("a=b=c"), vec![]);
    assert_eq!(parse_extensions("a=1 b=2 c d=3=4"), vec![]);
}

#[test]
fn values_are_typed() {
    let pairs = parse_extensions("a=true b=-5 c=3.14 d=subtest e=695217");
    assert_eq!(
        pairs,
        vec![
            ext("a", CefValue::Bool(true)),
            ext("b", CefValue::I64(-5)),
            ext("c", CefValue::Float("3.14".to_string())),
            ext("d", text("subtest")),
            ext("e", CefValue::U64(695217)),
        ]
    );
}

#[test]
fn keys_are_not_typed() {
    assert_eq!(parse_extensions("1=2"), vec![ext("1", CefValue::U64(2))]);
    assert_eq!(parse_extensions("true=false"), vec![ext("true", CefValue::Bool(false))]);
}
