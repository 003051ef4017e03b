use factor_analysis::router::mode1::technical::{bbi, mass};
use factor_analysis::args::UntArg;
use factor_analysis::date::Date;
use factor_analysis::router::api::indice_file_name;
use factor_analysis::router::mode1::emotion::power_ratio::PowerKind;
use factor_analysis::router::mode1::emotion::volume_stat::VolStatKind;
use factor_analysis::router::mode1::emotion::wvad::WvadKind;
use factor_analysis::router::mode1::manager::{
    annualized_days, positive_span, quantile_range, resolve_detail_date, split_quantiles,
};
use factor_analysis::router::mode1::technical::macd;
use factor_analysis::router::mode1::technical::psy_n::{Core, PsyCounter};
use factor_analysis::router::mode1::{validate_period, validation_error_of};

fn grouped(factors: &[f64], count: usize) -> Vec<Vec<f64>> {
    let mut sorted = factors.to_vec();
    sorted.sort_unstable_by(|a, b| a.total_cmp(b));
    split_quantiles(count, sorted.len())
        .into_iter()
        .map(|group| group.into_iter().map(|i| sorted[i]).collect())
        .collect()
}

#[test]
fn split_quantiles_groups_by_ascending_factor() {
    let groups = grouped(&[4.0, 1.0, 3.0, 2.0], 2);
    assert_eq!(groups.len(), 2);
    assert_eq!(groups[0], [1.0, 2.0]);
    assert_eq!(groups[1], [3.0, 4.0]);
}

#[test]
fn split_quantiles_uses_integer_boundaries() {
    let groups = grouped(&[5.0, 1.0, 4.0, 2.0, 3.0], 3);
    assert_eq!(groups[0], [1.0]);
    assert_eq!(groups[1], [2.0, 3.0]);
    assert_eq!(groups[2], [4.0, 5.0]);
}

#[test]
fn split_quantiles_shares_rows_when_count_exceeds_len() {
    let groups = grouped(&[3.0, 1.0], 4);
    assert_eq!(groups.len(), 4);
    for group in &groups {
        assert_eq!(group, &[1.0, 3.0]);
    }
}

#[test]
fn split_quantiles_empty_rows_yield_empty_groups() {
    let groups = split_quantiles(3, 0);
    assert_eq!(groups.len(), 3);
    assert!(groups.iter().all(Vec::is_empty));
}

#[test]
fn quantile_range_matches_split() {
    for (count, len) in [(3, 5), (2, 4), (4, 2), (5, 17), (1, 9)] {
        let groups = split_quantiles(count, len);
        for (index, group) in groups.iter().enumerate() {
            let (start, end) = quantile_range(index, len, count);
            assert_eq!(group, &(start..end).collect::<Vec<_>>());
        }
    }
    assert_eq!(quantile_range(1, 5, 3), (1, 3));
    assert_eq!(quantile_range(2, 2, 4), (0, 2));
    assert!(split_quantiles(0, 5).is_empty());
}

#[test]
fn resolve_detail_date_takes_last_trading_day() {
    let d = |day| Date { year: 2025, month: 1, day };
    let index = [d(2), d(3), d(6), d(7)];
    assert_eq!(resolve_detail_date(Some(d(9)), &index, d(2), d(5)), d(9));
    assert_eq!(resolve_detail_date(None, &index, d(2), d(5)), d(3));
    assert_eq!(resolve_detail_date(None, &index, d(2), d(7)), d(7));
    assert_eq!(resolve_detail_date(None, &index, d(2), d(1)), d(2));
    assert_eq!(resolve_detail_date(None, &[], d(2), d(9)), d(2));
}

#[test]
fn psy_counter_counts_rises_in_window() {
    let mut counter = PsyCounter::new(3);
    assert_eq!(counter.next(true), None);
    assert_eq!(counter.next(false), None);
    assert_eq!(counter.next(true), Some(2));
    assert_eq!(counter.next(true), Some(2));
    assert_eq!(counter.next(false), Some(2));
    assert_eq!(counter.next(false), Some(1));
    assert_eq!(counter.next(false), Some(0));
}

#[test]
fn validate_period_requires_two_days() {
    assert!(validate_period(&UntArg::new("周期", 2)).is_ok());
    let error = validate_period(&UntArg::new("周期", 1)).unwrap_err();
    assert_eq!(error.code, "period_min");
    assert_eq!(error.message, "周期必须大于等于 2");
    let converted = validation_error_of(error);
    assert_ne!(converted.code, "周期必须大于等于 2");
    assert_eq!(converted.code, "period_min");
    assert_eq!(converted.message.as_deref(), Some("周期必须大于等于 2"));
}

#[test]
fn macd_core_requires_short_below_long() {
    let core = macd::Core::new(12, 26, 9);
    assert!(macd::validate_core(&core).is_ok());
    let invalid = macd::Core { short: UntArg::new("短线", 26), long: UntArg::new("长线", 12), mid: UntArg::new("中线", 9) };
    let error = macd::validate_core(&invalid).unwrap_err();
    assert_eq!(error.code, "short_less_than_long");
    assert_eq!(error.message, "短线周期必须小于长线周期");
}

#[test]
fn kinds_have_labels_and_windows() {
    assert_eq!(PowerKind::Bull.label(), "多头力道");
    assert_eq!(PowerKind::Bear.label(), "空头力道");
    assert_eq!(VolStatKind::Osc.label(), "成交量震荡");
    assert_eq!(VolStatKind::Osc.window(), 20);
    assert_eq!(VolStatKind::StdVol10.window(), 10);
    assert_eq!(VolStatKind::Roc12.detail_warmup(), 2);
    assert_eq!(VolStatKind::Tvma6.detail_warmup(), 6);
    assert_eq!(WvadKind::Williams.window(), 24);
    assert_eq!(WvadKind::Wvad6.label(), "WVAD6 日均值");
}

#[test]
fn core_constructors_name_their_periods() {
    let core = Core::new(12);
    assert_eq!(core.period.name, "心理线周期");
    assert_eq!(core.period.value, 12);
}

#[test]
fn indice_file_name_drops_path_characters() {
    assert_eq!(indice_file_name("沪深300"), "沪深300.json");
    assert_eq!(indice_file_name("../etc/passwd"), "etcpasswd.json");
    assert_eq!(indice_file_name("中证_A-股·1"), "中证_A-股·1.json");
}

fn day(year: i32, month: u8, day: u8) -> Date {
    Date { year, month, day }
}

#[test]
fn annualized_days_spans_first_to_last_date() {
    assert_eq!(annualized_days(&[day(2025, 1, 1), day(2025, 1, 31)]), Some(30));
    assert_eq!(annualized_days(&[day(2024, 1, 1), day(2024, 6, 30), day(2025, 1, 1)]), Some(366));
    assert_eq!(annualized_days(&[day(2023, 12, 31), day(2024, 3, 1)]), Some(61));
}

#[test]
fn annualized_days_is_none_without_positive_span() {
    assert_eq!(annualized_days(&[]), None);
    assert_eq!(annualized_days(&[day(2025, 1, 1)]), None);
    assert_eq!(annualized_days(&[day(2025, 1, 1), day(2025, 1, 1)]), None);
    assert_eq!(annualized_days(&[day(2025, 2, 1), day(2025, 1, 1)]), None);
}

#[test]
fn positive_span_keeps_positive_counts() {
    assert_eq!(positive_span(30), Some(30));
    assert_eq!(positive_span(0), None);
    assert_eq!(positive_span(-5), None);
}

#[test]
fn default_cores_use_documented_periods() {
    let core = bbi::Core::default();
    assert_eq!((core.n1.value, core.n2.value, core.n3.value, core.n4.value), (3, 6, 12, 24));
    assert_eq!(core.n4.name, "N4周期");
    let core = mass::Core::default();
    assert_eq!((core.n1.value, core.n2.value, core.m.value), (9, 25, 6));
    assert_eq!(core.m.name, "M周期");
}

#[test]
fn indice_file_name_strips_path_traversal() {
    assert_eq!(indice_file_name("../etc/passwd"), "etcpasswd.json");
}
