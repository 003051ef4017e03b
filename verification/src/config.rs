//! Configuration defaults: analysis periods and data locations.
use vstd::prelude::*;
use vstd::string::*;

use crate::date::{Date, MAX_YEAR, MIN_YEAR};

verus! {

/// Named analysis period.
#[derive(Debug, Clone)]
pub struct Period {
    /// Period name.
    pub name: String,
    /// First day.
    pub start: Date,
    /// Last day.
    pub end: Date,
}

impl Period {
    /// A period from January 1 of `start_year` to December 31, 2025.
    pub fn new(name: &str, start_year: i32) -> (r: Period)
        requires
            MIN_YEAR <= start_year <= MAX_YEAR,
        ensures
            r.name@ == name@,
            r.start == (Date { year: start_year, month: 1, day: 1 }),
            r.end == (Date { year: 2025, month: 12, day: 31 }),
    {
        let start = Date::from_calendar_date(start_year, 1, 1).unwrap();
        let end = Date::from_calendar_date(2025, 12, 31).unwrap();
        Period { name: name.to_owned(), start, end }
    }
}

/// The default analysis periods: the last one, three, five and ten years, all
/// ending on December 31, 2025.
pub fn default_periods() -> (r: Vec<Period>)
    ensures
        r@.len() == 4,
        r@[0].name@ == "最近一年"@ && r@[0].start.year == 2025,
        r@[1].name@ == "最近三年"@ && r@[1].start.year == 2023,
        r@[2].name@ == "最近五年"@ && r@[2].start.year == 2021,
        r@[3].name@ == "最近十年"@ && r@[3].start.year == 2016,
        forall|i: int|
            0 <= i < 4 ==> (#[trigger] r@[i]).start.month == 1 && r@[i].start.day == 1 && r@[i].end == (Date {
                year: 2025,
                month: 12,
                day: 31,
            }),
{
    let mut periods: Vec<Period> = Vec::new();
    periods.push(Period::new("最近一年", 2025));
    periods.push(Period::new("最近三年", 2023));
    periods.push(Period::new("最近五年", 2021));
    periods.push(Period::new("最近十年", 2016));
    periods
}

/// Locations of the data sources and the cache.
#[derive(Debug, Clone)]
pub struct DataConfig {
    /// Cache root directory.
    pub cache: String,
    /// Directory of market JSON files, one `<code>.json` per stock.
    pub market: String,
    /// Metadata JSON file.
    pub metadata: String,
    /// Sector members JSON file.
    pub sector_json: String,
    /// Index members JSON file.
    pub indice_json: String,
    /// Directory of index history JSON files.
    pub indice_dir: String,
}

/// Default cache root directory.
pub fn default_cache_dir() -> (r: String)
    ensures
        r@ == "cache"@,
{
    String::from_str("cache")
}

/// Default sector members file.
pub fn default_sector_json() -> (r: String)
    ensures
        r@ == "data/sector.json"@,
{
    String::from_str("data/sector.json")
}

/// Default index members file.
pub fn default_indice_json() -> (r: String)
    ensures
        r@ == "data/indice.json"@,
{
    String::from_str("data/indice.json")
}

/// Default index history directory.
pub fn default_indice_dir() -> (r: String)
    ensures
        r@ == "data/indice"@,
{
    String::from_str("data/indice")
}

impl Default for DataConfig {
    fn default() -> (r: DataConfig)
        ensures
            r.cache@ == "cache"@,
            r.market@ == "data/market"@,
            r.metadata@ == "data/metadata.json"@,
            r.sector_json@ == "data/sector.json"@,
            r.indice_json@ == "data/indice.json"@,
            r.indice_dir@ == "data/indice"@,
    {
        DataConfig {
            cache: default_cache_dir(),
            market: String::from_str("data/market"),
            metadata: String::from_str("data/metadata.json"),
            sector_json: default_sector_json(),
            indice_json: default_indice_json(),
            indice_dir: default_indice_dir(),
        }
    }
}

} // verus!
