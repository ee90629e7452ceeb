use openfang_memory::ids::{AgentId, MemoryId};
use openfang_memory::json::{json_from_value, parse_document, parse_list, Json};
use openfang_memory::text::{decimal, first_chars, first_line, trim_trailing};
use openfang_memory::time::{Timestamp, FIRST_SECOND, LAST_SECOND};

#[test]
fn trimming_takes_off_the_trailing_run() {
    assert_eq!(trim_trailing("a//b///", '/'), "a//b");
    assert_eq!(trim_trailing("\u{e9}\u{e9}", '\u{e9}'), "");
    assert_eq!(trim_trailing("", '/'), "");
    assert_eq!(trim_trailing("/x", '/'), "/x");
}

#[test]
fn first_lines() {
    assert_eq!(first_line(""), None);
    assert_eq!(first_line("\u{e9}\r\nb"), Some("\u{e9}"));
    assert_eq!(first_line("a\n"), Some("a"));
    assert_eq!(first_line("a\r"), Some("a\r"));
    assert_eq!(first_chars("a\u{e9}b", 2), "a\u{e9}");
    assert_eq!(first_chars("ab", 2), "ab");
    assert_eq!(first_chars("ab", 0), "");
}

#[test]
fn decimal_numerals() {
    for n in [0usize, 7, 10, 99, 100, 12345, usize::MAX] {
        assert_eq!(decimal(n), n.to_string());
    }
}

#[test]
fn identifiers_in_hyphenated_form() {
    assert_eq!(AgentId::nil().to_text(), "00000000-0000-0000-0000-000000000000");
    assert_eq!(
        MemoryId(0xfedc_ba98_7654_3210_0f1e_2d3c_4b5a_6978).to_text(),
        "fedcba98-7654-3210-0f1e-2d3c4b5a6978"
    );
    assert_eq!(AgentId(u128::MAX).to_text(), "ffffffff-ffff-ffff-ffff-ffffffffffff");
    for _ in 0..50 {
        let id = MemoryId::new();
        assert_eq!((id.0 >> 76) & 0xf, 4);
        assert_eq!((id.0 >> 62) & 0x3, 2);
        assert_eq!(uuid::Uuid::parse_str(&id.to_text()).unwrap().as_u128(), id.0);
    }
}

#[test]
fn instants_are_those_of_the_calendar() {
    let date = |seconds: i64, nanos: u32| {
        chrono::DateTime::from_timestamp(seconds, 0)
            .and_then(|t| chrono::Timelike::with_nanosecond(&t.naive_utc(), nanos))
            .is_some()
    };
    for seconds in [
        i64::MIN,
        FIRST_SECOND - 1,
        FIRST_SECOND,
        FIRST_SECOND + 59,
        -1,
        0,
        58,
        59,
        60,
        119,
        LAST_SECOND - 1,
        LAST_SECOND,
        LAST_SECOND + 1,
        i64::MAX,
    ] {
        for nanos in [0u32, 999_999_999, 1_000_000_000, 1_999_999_999, 2_000_000_000, u32::MAX] {
            assert_eq!(Timestamp::new(seconds, nanos).is_some(), date(seconds, nanos));
        }
    }
}

#[test]
fn instants_as_text() {
    let t = Timestamp::new(1_773_446_400, 0).unwrap();
    assert_eq!(t.to_rfc3339(), "2026-03-14T00:00:00+00:00");
    assert_eq!(t.year_month(), "2026-03");
    assert_eq!(t.seconds(), 1_773_446_400);
    assert_eq!(t.nanos(), 0);
    let early = Timestamp::new(-62_135_596_801, 1_500_000_000).unwrap();
    assert_eq!(early.to_rfc3339(), "0000-12-31T23:59:60.500+00:00");
    assert_eq!(early.year_month(), "0000-12");
    let first = Timestamp::new(FIRST_SECOND, 0).unwrap();
    assert_eq!(first.to_rfc3339(), "-262143-01-01T00:00:00+00:00");
    assert_eq!(first.year_month(), "-262143-01");
    let middle = Timestamp::new(30, 1_500_000_000).unwrap();
    assert_eq!(middle.to_rfc3339(), "1970-01-01T00:00:31.500+00:00");
    assert_eq!(middle.year_month(), "1970-01");
    let last = Timestamp::new(LAST_SECOND, 1_999_999_999).unwrap();
    assert_eq!(last.to_rfc3339(), "+262142-12-31T23:59:60.999999999+00:00");
    assert_eq!(last.year_month(), "+262142-12");
    assert_eq!(Timestamp::new(951_868_799, 1_999_999_999).unwrap().year_month(), "2000-02");
    assert_eq!(Timestamp::new(951_868_800, 0).unwrap().year_month(), "2000-03");
    assert_eq!(Timestamp::new(253_402_300_799, 0).unwrap().year_month(), "9999-12");
    assert_eq!(Timestamp::new(253_402_300_800, 0).unwrap().year_month(), "+10000-01");
    assert_eq!(Timestamp::new(-62_167_219_201, 0).unwrap().year_month(), "-0001-12");
}

#[test]
fn fractions_of_a_second_as_text() {
    let text = |nanos: u32| Timestamp::new(951_827_696, nanos).unwrap().to_rfc3339();
    assert_eq!(text(0), "2000-02-29T12:34:56+00:00");
    assert_eq!(text(123_000_000), "2000-02-29T12:34:56.123+00:00");
    assert_eq!(text(20_000_000), "2000-02-29T12:34:56.020+00:00");
    assert_eq!(text(1_020_000), "2000-02-29T12:34:56.001020+00:00");
    assert_eq!(text(1_000), "2000-02-29T12:34:56.000001+00:00");
    assert_eq!(text(1_020), "2000-02-29T12:34:56.000001020+00:00");
    assert_eq!(text(5), "2000-02-29T12:34:56.000000005+00:00");
    assert_eq!(text(999_999_999), "2000-02-29T12:34:56.999999999+00:00");
    assert_eq!(text(1_000_000_000), "2000-02-29T12:34:57+00:00");
    assert_eq!(text(1_000_000_005), "2000-02-29T12:34:57.000000005+00:00");
}

#[test]
fn an_instant_as_text_begins_with_its_month() {
    for seconds in [FIRST_SECOND, -62_167_219_201, -1, 0, 951_827_696, 253_402_300_800] {
        let t = Timestamp::new(seconds, 7_000).unwrap();
        assert!(t.to_rfc3339().starts_with(&t.year_month()));
    }
}

#[test]
fn the_clock_shows_an_instant() {
    let before = chrono::Utc::now().timestamp();
    let now = Timestamp::now();
    assert!(now.seconds() >= before - 1);
    assert!(now.nanos() < 1_000_000_000);
}

#[test]
fn documents_are_read_out() {
    let text = br#"{"b": [null, true, 1.50, "x"], "a": {"c": -3}, "b": [18446744073709551615]}"#;
    let json = parse_document(text).unwrap();
    let Json::Object(members) = &json else { panic!() };
    assert_eq!(members.len(), 2);
    assert_eq!(json.get("a").unwrap().get_number("c"), Some("-3"));
    let items = json.get_array("b").unwrap();
    assert_eq!(items.len(), 1);
    assert!(matches!(&items[0], Json::Number(n) if n == "18446744073709551615"));
    assert!(json.get("z").is_none());
    assert!(json.get_text("a").is_none());
    assert!(items[0].get("a").is_none());
    assert!(parse_document(b"{").is_none());
    assert!(parse_document(b"1 2").is_none());
    assert!(parse_document(&[0xff]).is_none());
}

#[test]
fn every_kind_of_document_is_read_out() {
    let items = parse_list(r#"[null, true, 1.50, "x", [], {"k": [false]}]"#).unwrap();
    assert_eq!(items.len(), 6);
    assert!(matches!(items[0], Json::Null));
    assert!(matches!(items[1], Json::Bool(true)));
    assert!(matches!(&items[2], Json::Number(n) if n == "1.5"));
    assert!(matches!(&items[3], Json::Text(t) if t == "x"));
    assert!(matches!(&items[4], Json::Array(a) if a.is_empty()));
    let inner = items[5].get_array("k").unwrap();
    assert!(matches!(inner[0], Json::Bool(false)));
    assert!(parse_list("[]").unwrap().is_empty());
    assert!(parse_list("{}").is_none());
    assert!(parse_list("").is_none());
}

#[test]
fn deep_documents_are_read_out() {
    let mut value = serde_json::Value::Null;
    for _ in 0..100 {
        value = serde_json::Value::Array(vec![value]);
    }
    let mut json = json_from_value(value);
    let mut depth = 0;
    while let Json::Array(mut items) = json {
        depth += 1;
        json = items.pop().unwrap();
    }
    assert_eq!(depth, 100);
    assert!(matches!(json, Json::Null));
}
