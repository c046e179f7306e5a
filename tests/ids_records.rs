use bestellschein::ids::{format_id, parse_id};
use bestellschein::records::parse_records;

#[test]
fn small_ids_are_padded_to_four_digits() {
    assert_eq!(format_id(7), "0007");
    assert_eq!(format_id(0), "0000");
    assert_eq!(format_id(123), "0123");
    assert_eq!(format_id(9999), "9999");
}

#[test]
fn large_ids_are_written_as_they_are() {
    assert_eq!(format_id(10000), "10000");
    assert_eq!(format_id(4294967295), "4294967295");
}

#[test]
fn ids_read_back_to_the_same_number() {
    for n in [0u32, 1, 7, 42, 999, 9999, 10000, 123456, u32::MAX] {
        assert_eq!(parse_id(&format_id(n)), Some(n));
    }
}

#[test]
fn id_parsing_follows_unsigned_parsing() {
    assert_eq!(parse_id("+5"), Some(5));
    assert_eq!(parse_id("0042"), Some(42));
    assert_eq!(parse_id(""), None);
    assert_eq!(parse_id("+"), None);
    assert_eq!(parse_id("-1"), None);
    assert_eq!(parse_id("12a"), None);
    assert_eq!(parse_id("4294967296"), None);
}

#[test]
fn records_with_semicolons_skip_header_and_bad_rows() {
    let text = "Nr;DE;EN\n7;https://de/7;https://en/7\n;https://x;https://y\nabc;u;v\n12345 ; a ; b \n\n";
    let r = parse_records(text);
    assert_eq!(r.len(), 2);
    assert_eq!(r[0].id, "0007");
    assert_eq!(r[0].url_primary, "https://de/7");
    assert_eq!(r[0].url_secondary, "https://en/7");
    assert_eq!(r[1].id, "12345");
    assert_eq!(r[1].url_primary, "a");
    assert_eq!(r[1].url_secondary, "b");
}

#[test]
fn two_column_rows_use_one_link_for_both() {
    let r = parse_records("id,url\r\n5,https://x\r\n");
    assert_eq!(r.len(), 1);
    assert_eq!(r[0].id, "0005");
    assert_eq!(r[0].url_primary, "https://x");
    assert_eq!(r[0].url_secondary, "https://x");
}

#[test]
fn semicolon_wins_when_both_delimiters_appear() {
    let r = parse_records("a,b;c\n1;x,y;z\n");
    assert_eq!(r.len(), 1);
    assert_eq!(r[0].id, "0001");
    assert_eq!(r[0].url_primary, "x,y");
    assert_eq!(r[0].url_secondary, "z");
}

#[test]
fn empty_text_has_no_records() {
    assert_eq!(parse_records("").len(), 0);
    assert_eq!(parse_records("header only\n").len(), 0);
}

#[test]
fn rows_with_an_empty_column_are_dropped() {
    let r = parse_records("h;h;h\n1;;x\n2;a;b\n");
    assert_eq!(r.len(), 1);
    assert_eq!(r[0].id, "0002");
}

