use libxcsv::parse_delimiter;
use libxcsv::serial_parts_to_iso_date;
use libxcsv::tag_eq_ignore_case;
use libxcsv::text::parse_index;
use libxcsv::text::parse_u32;
use libxcsv::text::same_bytes;
use libxcsv::text::same_text;
use libxcsv::text::whitespace;
use libxcsv::dates::serial_to_unix_seconds;
use libxcsv::unix_seconds_to_iso_date;
use libxcsv::xml::find_attribute;
use libxcsv::xml::XmlAttribute;

#[test]
fn numbers_are_read_as_str_parse_reads_them() {
    for text in [
        "0", "7", "007", "+7", "4294967295", "4294967296", "42949672950", "", "+", "++1", "-1", "-0",
        " 1", "1 ", "1.0", "1e3", "0x10", "\u{664}", "12a", "99999999999999999999999",
    ] {
        assert_eq!(parse_u32(text), text.parse::<u32>().ok(), "{:?}", text);
    }
}

#[test]
fn indices_are_read_after_trimming() {
    for text in [
        "3", " 3", "3 ", "\n\t 12 \r\n", "\u{a0}5\u{3000}", "\u{85}6\u{2028}", "\u{200b}7", "1 2", "",
        "   ", "+4", " + 4", "18446744073709551615", "18446744073709551616", "\u{feff}1", "\u{1680}8\u{205f}",
    ] {
        assert_eq!(parse_index(text), text.trim().parse::<usize>().ok(), "{:?}", text);
    }
}

#[test]
fn white_space_is_what_char_says_it_is() {
    for code in 0..=0x10ffffu32 {
        if let Some(c) = char::from_u32(code) {
            assert_eq!(whitespace(c), c.is_whitespace(), "{:x}", code);
        }
    }
}

#[test]
fn texts_and_bytes_compare_by_content() {
    assert!(same_bytes(b"", b""));
    assert!(same_bytes(b"xf", b"xf"));
    assert!(!same_bytes(b"xf", b"xF"));
    assert!(!same_bytes(b"xf", b"xfs"));
    assert!(same_text("\u{e9}t\u{e9}", "\u{e9}t\u{e9}"));
    assert!(!same_text("true", "True"));
    assert!(!same_text("1", "1 "));
}

#[test]
fn tag_counts_as_element_by_name_or_ending() {
    assert!(tag_eq_ignore_case(b"row", "row"));
    assert!(tag_eq_ignore_case(b"ROW", "row"));
    assert!(tag_eq_ignore_case(b"RoW", "row"));
    assert!(tag_eq_ignore_case(b"x:row", "row"));
    assert!(tag_eq_ignore_case(b"x:ROW", "row"));
    assert!(!tag_eq_ignore_case(b"x:Row", "row"));
    assert!(tag_eq_ignore_case(b"x:Relationship", "Relationship"));
    assert!(tag_eq_ignore_case(b"x:relationship", "Relationship"));
    assert!(tag_eq_ignore_case(b"x:RELATIONSHIP", "Relationship"));
    assert!(tag_eq_ignore_case(b"arrow", "row"));
    assert!(!tag_eq_ignore_case(b"rows", "row"));
    assert!(!tag_eq_ignore_case(b"ro", "row"));
    assert!(!tag_eq_ignore_case(b"", "row"));
    assert!(tag_eq_ignore_case(b"", ""));
    assert!(tag_eq_ignore_case(b"anything", ""));
    assert!(tag_eq_ignore_case(b"c", "c"));
    assert!(!tag_eq_ignore_case(b"v", "c"));
    assert!(tag_eq_ignore_case(b"sheetCalc", "c"));
}

#[test]
fn last_attribute_of_a_name_is_found() {
    let attributes: Vec<XmlAttribute> = [("Id", "1"), ("r:Id", "2"), ("Target", "t"), ("id", "3")]
        .iter()
        .map(|(k, v)| XmlAttribute { key: k.as_bytes().to_vec(), value: v.as_bytes().to_vec() })
        .collect();
    assert_eq!(find_attribute(&attributes, "Id", "Id"), Some(&b"1".to_vec()));
    assert_eq!(find_attribute(&attributes, "Id", "r:Id"), Some(&b"2".to_vec()));
    assert_eq!(find_attribute(&attributes, "r:Id", "Id"), Some(&b"2".to_vec()));
    assert_eq!(find_attribute(&attributes, "id", "r:id"), Some(&b"3".to_vec()));
    assert_eq!(find_attribute(&attributes, "target", "target"), None);
    assert_eq!(find_attribute(&Vec::new(), "Id", "Id"), None);
}

#[test]
fn delimiter_is_comma_or_semicolon() {
    assert_eq!(parse_delimiter(","), Ok(b','));
    assert_eq!(parse_delimiter(";"), Ok(b';'));
    assert_eq!(
        parse_delimiter("|"),
        Err("Invalid delimiter '|'. Supported delimiters: ',' (comma) or ';' (semicolon)".to_string())
    );
    assert_eq!(
        parse_delimiter(""),
        Err("Invalid delimiter ''. Supported delimiters: ',' (comma) or ';' (semicolon)".to_string())
    );
    assert_eq!(
        parse_delimiter(",,"),
        Err("Invalid delimiter ',,'. Supported delimiters: ',' (comma) or ';' (semicolon)".to_string())
    );
}

#[test]
fn unix_time_is_written_as_a_timestamp() {
    assert_eq!(unix_seconds_to_iso_date(0), Some("1970-01-01T00:00:00.000Z".to_string()));
    assert_eq!(unix_seconds_to_iso_date(1609459200), Some("2021-01-01T00:00:00.000Z".to_string()));
    assert_eq!(unix_seconds_to_iso_date(1609459199), Some("2020-12-31T23:59:59.000Z".to_string()));
    assert_eq!(unix_seconds_to_iso_date(-1), Some("1969-12-31T23:59:59.000Z".to_string()));
    assert_eq!(unix_seconds_to_iso_date(253402300800), Some("+10000-01-01T00:00:00.000Z".to_string()));
    assert_eq!(unix_seconds_to_iso_date(i64::MAX), None);
    assert_eq!(unix_seconds_to_iso_date(i64::MIN), None);
}

#[test]
fn day_serial_counts_from_its_epoch() {
    assert_eq!(serial_to_unix_seconds(25569, 0, false), Some(0));
    assert_eq!(serial_to_unix_seconds(24107, 0, true), Some(0));
    assert_eq!(serial_to_unix_seconds(44197, 0, false), Some(1609459200));
    assert_eq!(serial_to_unix_seconds(44197, 43200, false), Some(1609502400));
    assert_eq!(serial_to_unix_seconds(0, -1, false), Some(-2209161601));
    assert_eq!(serial_to_unix_seconds(i32::MAX, i64::MAX, false), None);
    assert_eq!(serial_to_unix_seconds(i32::MIN, i64::MIN, true), None);
    assert_eq!(
        serial_to_unix_seconds(i32::MIN, 0, false),
        Some((i32::MIN as i64 - 25569) * 86400)
    );
}

#[test]
fn day_serial_is_written_as_a_timestamp() {
    assert_eq!(
        serial_parts_to_iso_date(44197, 0, false),
        Some("2021-01-01T00:00:00.000Z".to_string())
    );
    assert_eq!(
        serial_parts_to_iso_date(44197, 0, true),
        Some("2025-01-02T00:00:00.000Z".to_string())
    );
    assert_eq!(
        serial_parts_to_iso_date(61, 86399, false),
        Some("1900-03-01T23:59:59.000Z".to_string())
    );
    assert_eq!(
        serial_parts_to_iso_date(60, 0, false),
        Some("1900-02-28T00:00:00.000Z".to_string())
    );
    assert_eq!(serial_parts_to_iso_date(0, 0, true), Some("1904-01-01T00:00:00.000Z".to_string()));
    assert_eq!(serial_parts_to_iso_date(i32::MAX, 0, false), None);
    assert_eq!(serial_parts_to_iso_date(0, i64::MAX, false), None);
}
