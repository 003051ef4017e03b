# factor-analysis

A stock-factor quantile service. The library under `src/` holds the logic
that does not depend on floating-point arithmetic, written in Verus with
contracts that the verifier proves:

- `date`: calendar dates, their validity and chronological order;
- `text`: byte order of UTF-8 text, sorted text sets, UTF-8 and GBK decoding;
- `db::parse`: extraction of records between two markers from TBF data;
- `db::dataframe`, `db::metadata`: trading-day calendars and ranges, stock
  selection by exchange, sector and index, stock codes and group membership;
- `args`, `config`: request arguments, their BLAKE3 cache keys and the
  configuration defaults;
- `router::mode1`: quantile boundaries, detail-date resolution, the span
  used to annualize profits, factor parameters, and the integer windows of
  the psychological line and Aroon factors;
- `window`: highest or lowest of the last values of a series;
- `stlist`: stocks under ST treatment grouped by trading day.

`app/` is the service around the library: the command line, file and HTTP
I/O, caching of results, and the floating-point factor arithmetic.
Prices enter the library's windows as integer keys that order as the prices
do.

`tests/` exercises the library on concrete values.
