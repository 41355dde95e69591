use gibtax::text::{c, chars_of, iv, number_text, opt_str, starts_with, string_of, trim};

fn row(v: &[&str]) -> Vec<String> {
    v.iter().map(|s| s.to_string()).collect()
}

#[test]
fn iv_reads_integers_with_thousands_separators() {
    assert_eq!(iv("1,234"), 1234);
    assert_eq!(iv(" 1,234,567 "), 1234567);
    assert_eq!(iv("-42"), -42);
    assert_eq!(iv("+7"), 7);
}

#[test]
fn iv_gives_zero_for_what_is_no_integer() {
    assert_eq!(iv(""), 0);
    assert_eq!(iv("--"), 0);
    assert_eq!(iv("12.5"), 0);
    assert_eq!(iv("abc"), 0);
    assert_eq!(iv("99999999999999999999"), 0);
}

#[test]
fn c_gives_the_cell_or_empty_text() {
    let r = row(&["a", "b"]);
    assert_eq!(c(&r, 0), "a");
    assert_eq!(c(&r, 1), "b");
    assert_eq!(c(&r, 2), "");
}

#[test]
fn opt_str_treats_dash_and_empty_as_missing() {
    assert_eq!(opt_str("-"), None);
    assert_eq!(opt_str("   "), None);
    assert_eq!(opt_str(" AAPL "), Some("AAPL".to_string()));
    assert_eq!(opt_str("--"), Some("--".to_string()));
}

#[test]
fn number_text_cleans_numeric_cells() {
    assert_eq!(number_text(" 542,625.03 ", false), Some("542625.03".to_string()));
    assert_eq!(number_text("15.8%", false), Some("15.8".to_string()));
    assert_eq!(number_text("--", false), None);
    assert_eq!(number_text("", false), None);
    assert_eq!(number_text("-", false), Some("-".to_string()));
    assert_eq!(number_text("-", true), None);
}

#[test]
fn trim_and_starts_with() {
    assert_eq!(trim("  Gesamt  "), "Gesamt");
    assert!(starts_with("Gesamt Aktien", "Gesamt"));
    assert!(!starts_with("Aktien", "Gesamt"));
}

#[test]
fn characters_and_strings_convert_both_ways() {
    let v = chars_of("Börse");
    assert_eq!(v, vec!['B', 'ö', 'r', 's', 'e']);
    assert_eq!(string_of(&v), "Börse");
    assert_eq!(string_of(&Vec::new()), "");
}

#[test]
fn iv_reads_back_the_text_of_an_integer() {
    for n in [0i64, 7, -7, 1234567, -987654321, i64::MAX, i64::MIN] {
        assert_eq!(iv(&n.to_string()), n);
    }
}
