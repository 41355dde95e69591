use gibtax::error::Error;
use gibtax::groups::{data_rows, first_row_fields, group_records, select_rows, RowFilter};
use gibtax::statement::{
    convert_month, get_timestamp, is_decimal, match_period, kontoinformation_rows, netto_aktien_rows, period_date_valid,
    statement_rows, zins_texts, StatementRow,
};

fn rec(v: &[&str]) -> Vec<String> {
    v.iter().map(|s| s.to_string()).collect()
}

fn period(v: &str) -> Vec<StatementRow> {
    vec![
        StatementRow { feldname: "Title".to_string(), feldwert: "Kontoauszug".to_string() },
        StatementRow { feldname: "Period".to_string(), feldwert: v.to_string() },
    ]
}

#[test]
fn convert_month_knows_the_german_month_names() {
    let names = [
        "Januar", "Februar", "März", "April", "Mai", "Juni", "Juli", "August", "September",
        "Oktober", "November", "Dezember",
    ];
    for (i, n) in names.iter().enumerate() {
        assert_eq!(convert_month(n), Ok(i as u32 + 1));
    }
}

#[test]
fn convert_month_refuses_other_names() {
    assert_eq!(convert_month("January"), Err(Error::InvalidMonthName("January".to_string())));
    assert_eq!(convert_month("januar"), Err(Error::InvalidMonthName("januar".to_string())));
    assert_eq!(convert_month(""), Err(Error::InvalidMonthName(String::new())));
}

#[test]
fn statement_timestamp_is_the_end_of_the_period() {
    let rows = period("Januar 1, 2024 - Dezember 31, 2024");
    assert!(period_date_valid(&rows));
    assert_eq!(get_timestamp(&rows), Ok(20088));
}

#[test]
fn statement_without_period_has_no_date() {
    let rows = vec![StatementRow { feldname: "Title".to_string(), feldwert: "x".to_string() }];
    assert!(period_date_valid(&rows));
    assert_eq!(get_timestamp(&rows), Err(Error::DateNotFound));
    let rows = period("Dezember 2024");
    assert_eq!(get_timestamp(&rows), Err(Error::DateNotFound));
}

#[test]
fn statement_period_with_english_month_is_refused() {
    let rows = period("January 1, 2024 - December 31, 2024");
    assert!(period_date_valid(&rows));
    assert_eq!(get_timestamp(&rows), Err(Error::InvalidMonthName("December".to_string())));
}

#[test]
fn statement_period_with_a_date_that_does_not_exist_is_flagged() {
    let rows = period("Januar 1, 2024 - Februar 30, 2024");
    assert!(!period_date_valid(&rows));
}

#[test]
fn statement_period_with_a_huge_day_is_a_parse_error() {
    let rows = period("Januar 99999999999, 2024");
    assert!(period_date_valid(&rows));
    assert!(matches!(get_timestamp(&rows), Err(Error::ParseIntError(_))));
}

#[test]
fn statement_period_day_with_other_digits_is_a_parse_error() {
    let rows = period("Januar 1, 2024 - Dezember \u{663}\u{661}, 2024");
    assert!(period_date_valid(&rows));
    assert_eq!(
        get_timestamp(&rows),
        Err(Error::ParseIntError("invalid digit found in string".to_string()))
    );
    let rows = period("Dezember 31, 20\u{968}4");
    assert!(period_date_valid(&rows));
    assert_eq!(
        get_timestamp(&rows),
        Err(Error::ParseIntError("invalid digit found in string".to_string()))
    );
    let rows = period("Dezember 4294967296\u{663}, 2024");
    assert_eq!(
        get_timestamp(&rows),
        Err(Error::ParseIntError("number too large to fit in target type".to_string()))
    );
}

#[test]
fn decimal_digits_of_other_scripts() {
    assert!(is_decimal('0') && is_decimal('9'));
    assert!(is_decimal('\u{663}') && is_decimal('\u{ff19}') && is_decimal('\u{1d7ce}'));
    assert!(is_decimal('\u{1fbf9}') && is_decimal('\u{116d0}'));
    assert!(!is_decimal('a') && !is_decimal('\u{b2}') && !is_decimal('\u{2160}'));
}

#[test]
fn period_matcher_agrees_with_the_pattern() {
    let re = regex::Regex::new(r"([a-zA-Z]*) (\d+), (\d{4})$").unwrap();
    let cases = [
        "Januar 1, 2024 - Dezember 31, 2024",
        "Dezember 31, 2024",
        " 31, 2024",
        "31, 2024",
        "Dezember 31,2024",
        "Dezember 31, 20245",
        "Dezember31, 2024",
        "x M\u{e4}rz 5, 2024",
        "M\u{e4}rz 5, 2024",
        "Mai 0\u{663}1, \u{966}\u{967}\u{968}\u{969}",
        "Mai 12, 2024 ",
        "a b 7, 1999",
        "",
    ];
    for case in cases {
        let expected = re.captures(case).map(|c| {
            (c[1].chars().collect::<Vec<char>>(), c[2].chars().collect(), c[3].chars().collect())
        });
        assert_eq!(match_period(case), expected, "{case}");
    }
}

#[test]
fn groups_keep_tables_and_order() {
    let records = vec![
        rec(&["Statement", "Header", "Feldname", "Feldwert"]),
        rec(&["Statement", "Data", "Period", "Januar 1, 2024 - Dezember 31, 2024"]),
        rec(&["Kontoinformation", "Data", "Name", "Max"]),
        rec(&[" Statement ", "Data", "Title", "Kontoauszug"]),
        rec(&["", "Data", "x"]),
        rec(&["Einzel"]),
    ];
    let g = group_records(&records);
    let s = statement_rows(&g);
    assert_eq!(s.len(), 2);
    assert_eq!(s[0].feldname, "Period");
    assert_eq!(s[1].feldname, "Title");
    assert_eq!(s[1].feldwert, "Kontoauszug");
    let k = kontoinformation_rows(&g);
    assert_eq!(k.len(), 1);
    assert_eq!(k[0].feldwert, "Max");
    assert_eq!(data_rows(&g, "Einzel").len(), 0);
    assert_eq!(first_row_fields(&g, "Statement").unwrap()[0], "Feldname");
}

#[test]
fn rows_are_selected_by_their_cells() {
    let records = vec![
        rec(&["Offene Positionen", "Header", "DataDiscriminator", "Kategorie"]),
        rec(&["Offene Positionen", "Data", "Summary", "Aktien"]),
        rec(&["Offene Positionen", "Data", "Lot", "Aktien"]),
        rec(&["Offene Positionen", "Total", "Summary", "Aktien"]),
        rec(&["Kapitalmaßnahmen", "Data", "Aktien", "x"]),
        rec(&["Kapitalmaßnahmen", "Data", "Gesamt", "y"]),
    ];
    let g = group_records(&records);
    let summary = select_rows(&g, "Offene Positionen", &RowFilter::ColumnIs(0, "Summary"));
    assert_eq!(summary.len(), 1);
    assert_eq!(summary[0][1], "Aktien");
    let not_total =
        select_rows(&g, "Kapitalmaßnahmen", &RowFilter::ColumnNotStartingWith(0, "Gesamt"));
    assert_eq!(not_total.len(), 1);
    assert_eq!(not_total[0][1], "x");
}

#[test]
fn net_stock_positions_read_integers() {
    let records = vec![rec(&[
        "Netto-Aktienpositionsübersicht", "Data", "Aktien", "USD", "AAPL", "APPLE INC", "1,200",
        "0", "100", "1,100",
    ])];
    let g = group_records(&records);
    let r = netto_aktien_rows(&g);
    assert_eq!(r.len(), 1);
    assert_eq!(r[0].symbol, "AAPL");
    assert_eq!(r[0].aktien_bei_ib, 1200);
    assert_eq!(r[0].aktien_verliehen, 100);
    assert_eq!(r[0].netto_aktien, 1100);
}

#[test]
fn interest_total_rows_move_their_label() {
    let total = rec(&["Gesamt Zinsen in EUR", "", "", "12.5"]);
    assert_eq!(
        zins_texts(&total),
        (String::new(), String::new(), "Gesamt Zinsen in EUR".to_string())
    );
    let row = rec(&["USD", "2024-01-03", "USD Guthabenzinsen", "1.0"]);
    assert_eq!(
        zins_texts(&row),
        ("USD".to_string(), "2024-01-03".to_string(), "USD Guthabenzinsen".to_string())
    );
}
