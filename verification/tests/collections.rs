use std::collections::HashSet;

use factor_analysis::date::Date;
use factor_analysis::db::dataframe::insert_date;
use factor_analysis::db::metadata::{sort_by_code, Metadata};
use factor_analysis::stlist::add_st_record;
use factor_analysis::text::sorted_texts;

fn meta(code: &str, name: &str) -> Metadata {
    Metadata {
        exchange: "深交所".to_string(),
        name: name.to_string(),
        code: code.to_string(),
        listing_date: "2020-01-01".to_string(),
        members: HashSet::new(),
    }
}

#[test]
fn sort_by_code_orders_codes() {
    let sorted = sort_by_code(vec![meta("600000", "a"), meta("000002", "b"), meta("300001", "c"), meta("000001", "d")]);
    let codes: Vec<&str> = sorted.iter().map(|m| m.code.as_str()).collect();
    assert_eq!(codes, ["000001", "000002", "300001", "600000"]);
}

#[test]
fn sorted_texts_sorts_and_dedups() {
    let tags = vec!["行业一".to_string(), "沪深指数".to_string(), "A股".to_string(), "行业一".to_string()];
    let sorted = sorted_texts(tags);
    let mut expected = vec!["行业一", "沪深指数", "A股"];
    expected.sort_unstable();
    assert_eq!(sorted, expected);
}

#[test]
fn insert_date_keeps_calendar_sorted_and_unique() {
    let d = |day| Date { year: 2025, month: 1, day };
    let mut index = Vec::new();
    for day in [3, 1, 2, 3, 1] {
        insert_date(&mut index, d(day));
    }
    assert_eq!(index, [d(1), d(2), d(3)]);
}

#[test]
fn exports_st_records_grouped_by_date() {
    let d = |day| Date { year: 2025, month: 1, day };
    let mut groups: Vec<(Date, Vec<String>)> = Vec::new();
    for (code, rows) in [("000001", [(1, true), (2, false), (3, true)].as_slice()), ("000002", [(1, true), (2, true)].as_slice())] {
        for &(day, is_st) in rows {
            if is_st {
                add_st_record(&mut groups, d(day), code.to_string());
            }
        }
    }
    assert_eq!(
        groups,
        [
            (d(1), vec!["000001".to_string(), "000002".to_string()]),
            (d(2), vec!["000002".to_string()]),
            (d(3), vec!["000001".to_string()]),
        ]
    );
}
