use attribution_metadata::attribution::{Attribution, AttributionEntry, AttributionType};
use attribution_metadata::codec::{
    date_format_ok, decode_entry, encode_all, encode_entry, EntryItem, IntegrityError, ItemValue,
    ValidationError,
};
use attribution_metadata::text::{parse_u32, str_eq, str_lex_le, trim, u32_to_dec};

fn entry(
    attribution_type: AttributionType,
    user_name: &str,
    user_id: Option<u32>,
    date: Option<&str>,
) -> AttributionEntry {
    AttributionEntry {
        attribution_type,
        user_name: user_name.to_string(),
        user_id,
        date: date.map(|d| d.to_string()),
    }
}

#[test]
fn field_names_round_trip() {
    let kinds = [
        (AttributionType::Author, "author"),
        (AttributionType::Rewrite, "rewrite"),
        (AttributionType::Translator, "translator"),
        (AttributionType::Maintainer, "maintainer"),
    ];
    for (kind, name) in kinds {
        assert_eq!(kind.field_name(), name);
        assert_eq!(AttributionType::from_name(name).unwrap(), kind);
    }
    assert!(AttributionType::from_name("editor").is_err());
    assert!(AttributionType::from_name("Author").is_err());
}

#[test]
fn trim_removes_leading_and_trailing_whitespace() {
    assert_eq!(trim("  Alice  "), "Alice");
    assert_eq!(trim("\t a b \n"), "a b");
    assert_eq!(trim("   "), "");
    assert_eq!(trim(""), "");
    assert_eq!(trim("no-ws"), "no-ws");
}

#[test]
fn decimal_round_trip() {
    assert_eq!(u32_to_dec(0), "0");
    assert_eq!(u32_to_dec(7), "7");
    assert_eq!(u32_to_dec(4294967295), "4294967295");
    assert_eq!(parse_u32("0"), Some(0));
    assert_eq!(parse_u32("007"), Some(7));
    assert_eq!(parse_u32("+42"), Some(42));
    assert_eq!(parse_u32("4294967295"), Some(4294967295));
    assert_eq!(parse_u32("4294967296"), None);
    assert_eq!(parse_u32(""), None);
    assert_eq!(parse_u32("+"), None);
    assert_eq!(parse_u32("12a"), None);
    assert_eq!(parse_u32("-1"), None);
}

#[test]
fn string_order_is_lexicographic() {
    assert!(str_lex_le("", "2023-01-01"));
    assert!(str_lex_le("2023-01-01", "2023-05-01"));
    assert!(!str_lex_le("2023-05-01", "2023-01-01"));
    assert!(str_lex_le("abc", "abc"));
    assert!(str_eq("same", "same"));
    assert!(!str_eq("same", "sam"));
}

#[test]
fn round_trip_normalizes_user_name() {
    let e = entry(
        AttributionType::Author,
        "  Alice  ",
        Some(7),
        Some("2023-05-01"),
    );
    let item = encode_entry(&e).unwrap();
    let back = decode_entry(&item).unwrap();
    let expected = entry(AttributionType::Author, "Alice", Some(7), Some("2023-05-01"));
    assert_eq!(back, expected);
}

#[test]
fn round_trip_keeps_absent_fields() {
    let e = entry(AttributionType::Maintainer, "Bob", None, None);
    let item = encode_entry(&e).unwrap();
    let back = decode_entry(&item).unwrap();
    assert_eq!(back, e);
}

#[test]
fn encode_rejects_empty_user_name() {
    let e = entry(AttributionType::Author, "", None, None);
    assert_eq!(encode_entry(&e), Err(ValidationError::EmptyUserName));
    let e = entry(AttributionType::Author, "   ", None, None);
    assert_eq!(encode_entry(&e), Err(ValidationError::EmptyUserName));
}

#[test]
fn encode_checks_date_format_not_calendar() {
    for bad in ["2023-1-1", "23-01-01", "2023/01/01"] {
        let e = entry(AttributionType::Author, "Alice", None, Some(bad));
        assert_eq!(
            encode_entry(&e),
            Err(ValidationError::InvalidDateFormat(bad.to_string()))
        );
    }
    let e = entry(AttributionType::Author, "Alice", None, Some("2023-02-30"));
    assert!(encode_entry(&e).is_ok());
    assert!(date_format_ok("2023-99-99"));
    assert!(!date_format_ok("2023-01-011"));
}

#[test]
fn validation_error_messages() {
    assert_eq!(
        ValidationError::EmptyUserName.message(),
        "Username cannot be an empty string or only whitespace"
    );
    assert_eq!(
        ValidationError::InvalidDateFormat("23".to_string()).message(),
        "Date value '23' is invalid (must be YYYY-MM-DD)"
    );
}

#[test]
fn decode_flags_each_shape_violation() {
    let good = encode_entry(&entry(
        AttributionType::Author,
        "Alice",
        Some(3),
        Some("2023-01-01"),
    ))
    .unwrap();

    let mut item = good.clone();
    item.entry_type = ItemValue::Null;
    assert_eq!(decode_entry(&item), Err(IntegrityError::TypeNotString));

    let mut item = good.clone();
    item.entry_type = ItemValue::Str("editor".to_string());
    assert_eq!(decode_entry(&item), Err(IntegrityError::UnknownType));

    let mut item = good.clone();
    item.user_name = ItemValue::Num("3".to_string());
    assert_eq!(decode_entry(&item), Err(IntegrityError::UserNameNotString));

    let mut item = good.clone();
    item.user_id = ItemValue::Str("3".to_string());
    assert_eq!(decode_entry(&item), Err(IntegrityError::UserIdNotNumeric));

    let mut item = good.clone();
    item.user_id = ItemValue::Num("0".to_string());
    assert_eq!(decode_entry(&item), Err(IntegrityError::UserIdInvalid));

    let mut item = good.clone();
    item.user_id = ItemValue::Num("not-a-number".to_string());
    assert_eq!(decode_entry(&item), Err(IntegrityError::UserIdInvalid));

    let mut item = good.clone();
    item.date = ItemValue::Num("2023".to_string());
    assert_eq!(decode_entry(&item), Err(IntegrityError::DateNotString));
}

#[test]
fn encode_all_stops_at_first_failure() {
    let entries = vec![
        entry(AttributionType::Author, "Alice", None, None),
        entry(AttributionType::Author, "  ", None, None),
        entry(AttributionType::Author, "Bob", None, Some("bad")),
    ];
    assert_eq!(encode_all(&entries), Err(ValidationError::EmptyUserName));

    let entries = vec![
        entry(AttributionType::Author, "Alice", None, Some("oops")),
        entry(AttributionType::Author, " ", None, None),
    ];
    assert_eq!(
        encode_all(&entries),
        Err(ValidationError::InvalidDateFormat("oops".to_string()))
    );
}

fn encoded(e: &AttributionEntry) -> EntryItem {
    encode_entry(e).unwrap()
}

#[test]
fn encode_all_keeps_order() {
    let a = entry(AttributionType::Author, "Alice", Some(1), None);
    let b = entry(AttributionType::Translator, "Bob", None, Some("2020-02-02"));
    let items = encode_all(&vec![a.clone(), b.clone()]).unwrap();
    assert_eq!(items, vec![encoded(&a), encoded(&b)]);
}

#[test]
fn sort_puts_missing_dates_first() {
    let mut attribution = Attribution(vec![
        entry(AttributionType::Author, "A", None, Some("2023-05-01")),
        entry(AttributionType::Author, "B", None, None),
        entry(AttributionType::Author, "C", None, Some("2023-01-01")),
    ]);
    attribution.sort();
    let dates: Vec<Option<String>> = attribution.0.iter().map(|e| e.date.clone()).collect();
    assert_eq!(
        dates,
        vec![
            None,
            Some("2023-01-01".to_string()),
            Some("2023-05-01".to_string())
        ]
    );
}

#[test]
fn sort_is_stable_on_equal_dates() {
    let mut attribution = Attribution(vec![
        entry(AttributionType::Author, "first", None, Some("2023-01-01")),
        entry(AttributionType::Rewrite, "second", None, Some("2023-01-01")),
        entry(AttributionType::Author, "undated-1", None, None),
        entry(AttributionType::Author, "undated-2", None, None),
    ]);
    attribution.sort();
    let names: Vec<String> = attribution.0.iter().map(|e| e.user_name.clone()).collect();
    assert_eq!(names, vec!["undated-1", "undated-2", "first", "second"]);
}

#[test]
fn sort_is_idempotent() {
    let mut attribution = Attribution(vec![
        entry(AttributionType::Author, "A", None, Some("2024-03-03")),
        entry(AttributionType::Author, "B", None, Some("2021-01-01")),
        entry(AttributionType::Author, "C", None, None),
    ]);
    attribution.sort();
    let once = attribution.clone();
    attribution.sort();
    assert_eq!(attribution, once);
}
