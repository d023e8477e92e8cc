use bybit_trader::text::{
    chars_of, contains_str, decimal_string, ends_with_str, remove_char, replace_escaped_quotes,
    str_eq, trim_end_matches_str,
};

#[test]
fn chars_of_keeps_order() {
    assert_eq!(chars_of("aé\"z"), vec!['a', 'é', '"', 'z']);
}

#[test]
fn remove_char_drops_every_occurrence() {
    assert_eq!(remove_char("\"BTCUSDT\"", '"'), "BTCUSDT");
    assert_eq!(remove_char("", '"'), "");
    assert_eq!(remove_char("a\\b\\\\c", '\\'), "abc");
}

#[test]
fn contains_str_finds_runs() {
    assert!(contains_str("\"BTCUSDT\"", "USDT"));
    assert!(!contains_str("\"BTCUSDC\"", "USDT"));
    assert!(contains_str("abc", ""));
    assert!(!contains_str("US", "USDT"));
    assert!(contains_str("USDT", "USDT"));
}

#[test]
fn ends_with_and_trim() {
    assert!(ends_with_str("MODE.txt", ".txt"));
    assert!(!ends_with_str("MODE.txt.bak", ".txt"));
    assert_eq!(trim_end_matches_str("MODE.txt", ".txt"), "MODE");
    assert_eq!(trim_end_matches_str("a.txt.txt", ".txt"), "a");
    assert_eq!(trim_end_matches_str(".txt", ".txt"), "");
    assert_eq!(trim_end_matches_str("abc", ""), "abc");
}

#[test]
fn decimal_string_matches_to_string() {
    assert_eq!(decimal_string(0), "0");
    assert_eq!(decimal_string(7), "7");
    assert_eq!(decimal_string(1700000000000), "1700000000000");
    assert_eq!(decimal_string(u128::MAX), u128::MAX.to_string());
}

#[test]
fn replace_escaped_quotes_scans_left_to_right() {
    assert_eq!(replace_escaped_quotes("{\\\"a\\\":1}"), "{\"a\":1}");
    assert_eq!(replace_escaped_quotes("\\\\\""), "\\\"");
    assert_eq!(replace_escaped_quotes("\\"), "\\");
}

#[test]
fn str_eq_compares_characters() {
    assert!(str_eq("qtyStep", "qtyStep"));
    assert!(!str_eq("qtyStep", "qtystep"));
    assert!(!str_eq("a", "ab"));
}
