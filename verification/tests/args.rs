use factor_analysis::args::{hashcode, Filter, IntArg, StrArg, UntArg};
use factor_analysis::config::default_periods;
use factor_analysis::date::Date;

#[test]
fn args_deref_to_values() {
    let int = IntArg::new("分位数", 10);
    let text = StrArg::new("策略名称", "低波动");

    assert_eq!(*int, 10);
    assert_eq!(&*text, "低波动");
}

#[test]
fn unt_arg_keeps_name_and_value() {
    let period = UntArg::new("心理线周期", 12);
    assert_eq!(period.name, "心理线周期");
    assert_eq!(*period, 12);
}

#[test]
fn hashcode_is_lowercase_blake3_hex() {
    assert_eq!(hashcode(b""), "af1349b9f5f9a1a6a0404dea36dcc9499bcb25c9adc112b7cc9a93cae41f3262");
    assert_eq!(hashcode(b"{\"count\":5}"), hashcode(b"{\"count\":5}"));
    assert_ne!(hashcode(b"{\"count\":5}"), hashcode(b"{\"count\":6}"));
    assert_eq!(hashcode(b"abc").len(), 64);
}

#[test]
fn filter_from_periods_uses_first_period() {
    let periods = default_periods();
    let filter = Filter::from_periods(&periods);
    assert_eq!(filter.start, Date { year: 2025, month: 1, day: 1 });
    assert_eq!(filter.end, Date { year: 2025, month: 12, day: 31 });
    assert!(!filter.filter_bz && !filter.filter_st);
    assert!(filter.sector.is_empty() && filter.indice.is_empty());
}
