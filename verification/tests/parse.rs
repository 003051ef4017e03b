use factor_analysis::db::parse::{ParseTbf, Symbol, TbfError};

#[test]
fn parse_rejects_unclosed_record() {
    let data = b"<begin>{\"value\":1}";
    let error = ParseTbf::new("<begin>", "</end>").parse(data).unwrap_err();
    assert_eq!(error, TbfError::UnclosedRecord);
}

#[test]
fn parse_reads_complete_records() {
    let data = b"prefix<begin>b</end><begin>a</end><begin>b</end>";
    let records = ParseTbf::new("<begin>", "</end>").parse(data).unwrap();
    assert_eq!(records, ["a", "b"]);
}

#[test]
fn parse_skips_empty_records() {
    let data = b"<begin></end><begin>x</end>";
    let records = ParseTbf::new("<begin>", "</end>").parse(data).unwrap();
    assert_eq!(records, ["x"]);
}

#[test]
fn parse_decodes_gbk_records() {
    // "中文" in GBK, which is not valid UTF-8.
    let mut data = b"<begin>".to_vec();
    data.extend_from_slice(&[0xD6, 0xD0, 0xCE, 0xC4]);
    data.extend_from_slice(b"</end>");
    let records = ParseTbf::new("<begin>", "</end>").parse(&data).unwrap();
    assert_eq!(records, ["中文"]);
}

#[test]
fn parse_orders_records_by_bytes() {
    let data = "<begin>中</end><begin>b</end><begin>B</end><begin>ab</end><begin>a</end>".as_bytes();
    let records = ParseTbf::new("<begin>", "</end>").parse(data).unwrap();
    assert_eq!(records, ["B", "a", "ab", "b", "中"]);
}

#[test]
fn parse_starts_afresh_each_time() {
    let mut parser = ParseTbf::new("<begin>", "</end>");
    assert!(parser.parse(b"<begin>half").is_err());
    assert_eq!(parser.parse(b"<begin>whole</end>").unwrap(), ["whole"]);
}

#[test]
fn symbol_reports_completed_marker() {
    let mut symbol = Symbol::new(b"ab".to_vec());
    assert!(!symbol.update(b'a'));
    assert!(symbol.update(b'b'));
    assert!(!symbol.update(b'b'));
    assert!(!symbol.update(b'a'));
    // A mismatch restarts the marker without re-reading the byte.
    assert!(!symbol.update(b'a'));
    assert!(!symbol.update(b'b'));
    assert!(!symbol.update(b'a'));
    assert!(symbol.update(b'b'));
}

#[test]
fn parse_tbf_update_reports_both_markers() {
    let mut parser = ParseTbf::new("<", ">");
    assert!(parser.update(b'<'));
    assert!(!parser.update(b'x'));
    assert!(parser.update(b'>'));
}

#[test]
fn symbol_reports_each_completed_marker() {
    let mut symbol = Symbol::new(b"ab".to_vec());
    assert_eq!([b'a', b'b', b'a', b'b'].map(|b| symbol.update(b)), [false, true, false, true]);
}
