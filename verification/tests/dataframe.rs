use factor_analysis::db::dataframe::{keeps_day, last_position, position_after, position_before, snapshot_positions, trading_calendar};
use std::collections::HashSet;

use factor_analysis::date::Date;
use factor_analysis::db::dataframe::{
    contract_selected, count_not_after, dates_within, positions_within, warmup_start, Index,
};
use factor_analysis::db::metadata::{member_groups, normalize_code};
use factor_analysis::text::same_text;

fn date(day: u8) -> Date {
    Date { year: 2025, month: 1, day }
}

fn set(items: &[&str]) -> Vec<String> {
    items.iter().map(|s| s.to_string()).collect::<HashSet<_>>().into_iter().collect()
}

struct Stock {
    exchange: String,
    members: Vec<String>,
}

fn stock(exchange: &str, members: &[&str]) -> Stock {
    Stock { exchange: exchange.to_string(), members: set(members) }
}

fn pool() -> Vec<Stock> {
    vec![stock("上交所", &["行业一", "沪深指数"]), stock("北交所", &["行业二", "北证指数"])]
}

fn select(stocks: &[Stock], sector: &[&str], indice: &[&str], filter_bz: bool) -> usize {
    let (sector, indice) = (set(sector), set(indice));
    stocks.iter().filter(|s| contract_selected(&s.exchange, &s.members, filter_bz, &sector, &indice)).count()
}

#[test]
fn from_args_uses_sector_and_indice_union() {
    let index = [date(1), date(2), date(3)];
    let start = date(2).max(date(1));
    let end = date(4).min(date(3));
    assert_eq!(start, date(2));
    assert_eq!(end, date(3));
    assert_eq!(dates_within(&index, start, end).len(), 2);
    assert_eq!(select(&pool(), &["行业一"], &["北证指数"], false), 2);
}

#[test]
fn from_args_filters_beijing_exchange_only() {
    let stocks = pool();
    assert_eq!(select(&stocks, &[], &[], true), 1);
    let kept: Vec<&str> = stocks
        .iter()
        .filter(|s| contract_selected(&s.exchange, &s.members, true, &[], &[]))
        .map(|s| s.exchange.as_str())
        .collect();
    assert_eq!(kept, ["上交所"]);
}

#[test]
fn from_args_defers_st_filtering_to_market_data() {
    let mut stocks = pool();
    stocks.push(stock("上交所", &[]));
    assert_eq!(select(&stocks, &[], &[], false), 3);
}

#[test]
fn from_args_keeps_metadata_lists_when_no_contract_matches() {
    assert_eq!(select(&pool(), &["不存在的板块"], &["不存在的指数"], false), 0);
}

#[test]
fn dates_within_includes_both_ends() {
    let index = [date(1), date(2), date(3), date(4)];
    assert_eq!(dates_within(&index, date(2), date(3)), [date(2), date(3)]);
    assert!(dates_within(&index, date(5), date(9)).is_empty());
}

#[test]
fn positions_within_is_none_without_overlap() {
    let dates = [date(1), date(2), date(3)];
    assert_eq!(positions_within(&dates, date(2), date(3)), Some(vec![1, 2]));
    assert_eq!(positions_within(&dates, date(4), date(5)), None);
}

#[test]
fn index_new_keeps_fields() {
    let index = Index::new(3, date(7));
    assert_eq!(index.index, 3);
    assert_eq!(index.datetime, date(7));
}

#[test]
fn normalize_code_strips_exchange_suffix() {
    assert_eq!(normalize_code("000001.SZ"), "000001");
    assert_eq!(normalize_code("600000.SH"), "600000");
    assert_eq!(normalize_code("830001.BJ"), "830001");
    assert_eq!(normalize_code("000001"), "000001");
    assert_eq!(normalize_code("000001.HK"), "000001.HK");
    assert_eq!(normalize_code(".SZ"), "");
}

#[test]
fn count_not_after_counts_leading_days() {
    let index = [date(2), date(4), date(6), date(8)];
    assert_eq!(count_not_after(&index, date(1)), 0);
    assert_eq!(count_not_after(&index, date(4)), 2);
    assert_eq!(count_not_after(&index, date(5)), 2);
    assert_eq!(count_not_after(&index, date(9)), 4);
    assert_eq!(count_not_after(&[], date(9)), 0);
}

#[test]
fn warmup_start_steps_back_over_trading_days() {
    let index = [date(2), date(4), date(6), date(8), date(10)];
    assert_eq!(warmup_start(&index, date(1), date(9), 2), date(4));
    assert_eq!(warmup_start(&index, date(1), date(8), 0), date(8));
    assert_eq!(warmup_start(&index, date(1), date(6), 10), date(2));
    assert_eq!(warmup_start(&index, date(1), date(1), 3), date(1));
}


#[test]
fn member_groups_matches_codes_without_suffix() {
    let groups = vec![
        ("银行".to_string(), vec!["000001.SZ".to_string(), "600000.SH".to_string()]),
        ("沪深300".to_string(), vec!["600000.SH".to_string()]),
        ("北证50".to_string(), vec!["830001.BJ".to_string()]),
    ];
    let mut names = member_groups(&groups, "600000");
    names.sort();
    assert_eq!(names, ["沪深300", "银行"]);
    assert_eq!(member_groups(&groups, "830001"), ["北证50"]);
    assert!(member_groups(&groups, "000002").is_empty());
    assert!(member_groups(&groups, "000001.SZ").is_empty());
}

#[test]
fn same_text_compares_whole_texts() {
    assert!(same_text("行业一", "行业一"));
    assert!(!same_text("行业一", "行业二"));
    assert!(!same_text("600000", "600000.SH"));
    assert!(same_text("", ""));
}

#[test]
fn snapshot_positions_picks_stocks_with_a_bar_that_day() {
    let dates = vec![vec![date(1), date(2), date(3)], vec![date(1), date(3)], vec![date(2)], vec![date(2), date(2)]];
    assert_eq!(snapshot_positions(&dates, date(2)), vec![(0, 1), (2, 0), (3, 1)]);
    assert_eq!(snapshot_positions(&dates, date(3)), vec![(0, 2), (1, 1)]);
    assert!(snapshot_positions(&dates, date(9)).is_empty());
    assert_eq!(last_position(&dates[3], date(2)), Some(1));
    assert_eq!(last_position(&dates[2], date(1)), None);
}

#[test]
fn trading_calendar_unites_bar_dates() {
    let dates = vec![vec![date(3), date(5)], vec![], vec![date(1), date(3), date(4)]];
    assert_eq!(trading_calendar(&dates), Some(vec![date(1), date(3), date(4), date(5)]));
    assert_eq!(trading_calendar(&[vec![], vec![]]), None);
    assert_eq!(trading_calendar(&[]), None);
}

#[test]
fn positions_step_within_a_stock() {
    assert_eq!(position_before(1, 1, 3), Some(0));
    assert_eq!(position_before(1, 2, 3), None);
    assert_eq!(position_after(1, 1, 3), Some(2));
    assert_eq!(position_after(1, 2, 3), None);
    assert_eq!(position_after(usize::MAX, 1, 3), None);
}

#[test]
fn filter_st_uses_daily_market_status() {
    assert!(keeps_day(false, true));
    assert!(keeps_day(false, false));
    assert!(!keeps_day(true, true));
    assert!(keeps_day(true, false));
}
