use factor_analysis::config::{default_cache_dir, default_indice_dir, default_indice_json, default_periods, default_sector_json, DataConfig, Period};
use factor_analysis::date::Date;

#[test]
fn default_periods_cover_one_to_ten_years() {
    let periods = default_periods();
    let names: Vec<&str> = periods.iter().map(|p| p.name.as_str()).collect();
    assert_eq!(names, ["最近一年", "最近三年", "最近五年", "最近十年"]);
    let starts: Vec<i32> = periods.iter().map(|p| p.start.year).collect();
    assert_eq!(starts, [2025, 2023, 2021, 2016]);
    for period in &periods {
        assert_eq!((period.start.month, period.start.day), (1, 1));
        assert_eq!(period.end, Date { year: 2025, month: 12, day: 31 });
    }
}

#[test]
fn period_new_spans_to_end_of_2025() {
    let period = Period::new("自定义", 2020);
    assert_eq!(period.name, "自定义");
    assert_eq!(period.start, Date { year: 2020, month: 1, day: 1 });
    assert_eq!(period.end, Date { year: 2025, month: 12, day: 31 });
}

#[test]
fn data_config_defaults() {
    let data = DataConfig::default();
    assert_eq!(data.cache, "cache");
    assert_eq!(data.market, "data/market");
    assert_eq!(data.metadata, "data/metadata.json");
    assert_eq!(data.sector_json, "data/sector.json");
    assert_eq!(data.indice_json, "data/indice.json");
    assert_eq!(data.indice_dir, "data/indice");
    assert_eq!(default_cache_dir(), "cache");
    assert_eq!(default_sector_json(), "data/sector.json");
    assert_eq!(default_indice_json(), "data/indice.json");
    assert_eq!(default_indice_dir(), "data/indice");
}
