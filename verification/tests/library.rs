use migrassist::commands::{check_csv_path, validate_config};
use migrassist::comparison::{
    build_detail_csv, build_mjs_index, build_summary_csv, compare_records, find_col_index, run,
    ColInfo, DetailRow,
};
use migrassist::csv_output::{csv_escape, csv_row};
use migrassist::csv_reader::{decode_bytes, read_headers, read_records, strip_leading_bom};
use migrassist::types::{ColumnMapping, ComparisonConfig};
use migrassist::values::{compute_diff, values_match};

fn mapping(mjs: &str, other: &str, is_compare: bool, tolerance: i32) -> ColumnMapping {
    ColumnMapping {
        mjs_header: mjs.to_string(),
        other_header: other.to_string(),
        is_compare,
        tolerance,
    }
}

fn config(columns: Vec<ColumnMapping>) -> ComparisonConfig {
    ComparisonConfig {
        mjs_path: "mjs.csv".to_string(),
        mjs_encoding: "utf-8".to_string(),
        other_path: "other.csv".to_string(),
        other_encoding: "sjis".to_string(),
        output_dir: "out".to_string(),
        columns,
        timestamp: "202401311200".to_string(),
    }
}

fn strings(v: &[&str]) -> Vec<String> {
    v.iter().map(|s| s.to_string()).collect()
}

fn table(rows: &[&[&str]]) -> Vec<Vec<String>> {
    rows.iter().map(|r| strings(r)).collect()
}

// ── validate_config: every refusal, in its order ──────────────────────────

#[test]
fn validate_config_accepts_complete_config() {
    let c = config(vec![mapping("社員コード", "EMP", false, 0), mapping("出勤日数", "DAYS", true, 0)]);
    assert_eq!(validate_config(&c), Ok(()));
}

#[test]
fn validate_config_refuses_blank_mjs_path() {
    let mut c = config(vec![mapping("k", "K", false, 0), mapping("a", "A", true, 0)]);
    c.mjs_path = " \t\u{3000}".to_string();
    assert_eq!(validate_config(&c), Err("MJSシステムのCSVファイルが指定されていません".to_string()));
}

#[test]
fn validate_config_refuses_blank_other_path() {
    let mut c = config(vec![mapping("k", "K", false, 0), mapping("a", "A", true, 0)]);
    c.other_path = String::new();
    assert_eq!(validate_config(&c), Err("他社システムのCSVファイルが指定されていません".to_string()));
}

#[test]
fn validate_config_refuses_blank_output_dir() {
    let mut c = config(vec![mapping("k", "K", false, 0), mapping("a", "A", true, 0)]);
    c.output_dir = "  ".to_string();
    assert_eq!(validate_config(&c), Err("出力フォルダが指定されていません".to_string()));
}

#[test]
fn validate_config_refuses_no_columns() {
    let c = config(vec![]);
    assert_eq!(validate_config(&c), Err("ファイルが取り込まれていません".to_string()));
}

#[test]
fn validate_config_refuses_blank_key_column() {
    let c = config(vec![mapping("k", " ", false, 0), mapping("a", "A", true, 0)]);
    assert_eq!(validate_config(&c), Err("キー列の他社システム側の列が選択されていません".to_string()));
}

#[test]
fn validate_config_refuses_no_compared_column() {
    let c = config(vec![mapping("k", "K", true, 0), mapping("a", "A", false, 0)]);
    assert_eq!(validate_config(&c), Err("比較対象の列が1件も選択されていません".to_string()));
}

#[test]
fn validate_config_names_first_compared_column_without_other_column() {
    let c = config(vec![
        mapping("k", "K", false, 0),
        mapping("a", "A", true, 0),
        mapping("b", "", true, 0),
        mapping("c", "", true, 0),
    ]);
    assert_eq!(
        validate_config(&c),
        Err("比較対象列「b」の他社システム側の列が選択されていません".to_string())
    );
}

#[test]
fn validate_config_ignores_blank_other_column_when_not_compared() {
    let c = config(vec![mapping("k", "K", false, 0), mapping("a", "", false, 0), mapping("b", "B", true, 0)]);
    assert_eq!(validate_config(&c), Ok(()));
}

// ── check_csv_path ────────────────────────────────────────────────────────

#[test]
fn check_csv_path_refuses_blank_path() {
    assert_eq!(check_csv_path(""), Err("ファイルパスが未入力です".to_string()));
    assert_eq!(check_csv_path(" \n\t"), Err("ファイルパスが未入力です".to_string()));
    assert_eq!(check_csv_path("data.csv"), Ok(()));
}

// ── judges of field values ────────────────────────────────────────────────

/// Numbers read as the application reads them: as doubles.
fn double_within(a: &str, b: &str, tolerance: i32) -> Option<bool> {
    match (a.parse::<f64>(), b.parse::<f64>()) {
        (Ok(x), Ok(y)) => Some((x - y).abs() <= tolerance as f64),
        _ => None,
    }
}

fn double_difference(a: &str, b: &str) -> Option<String> {
    match (a.parse::<f64>(), b.parse::<f64>()) {
        (Ok(x), Ok(y)) => {
            let d = x - y;
            if d.fract() == 0.0 {
                Some(format!("{}", d as i64))
            } else {
                Some(format!("{}", d))
            }
        }
        _ => None,
    }
}

/// A reader that finds no numbers at all, and one that marks both values.
fn no_numbers(_a: &str, _b: &str, _tolerance: i32) -> Option<bool> {
    None
}

fn marked_difference(a: &str, b: &str) -> Option<String> {
    Some(format!("{}>{}", a, b))
}

#[test]
fn values_match_asks_for_numbers_only_with_a_tolerance() {
    assert!(values_match("1", "1.0", 1, &double_within));
    assert!(!values_match("1", "1.0", 0, &double_within));
    assert!(!values_match("128.3", "127.3", 1, &double_within));
    assert!(!values_match("1", "1.0", 1, &no_numbers));
    assert!(values_match("x", "x", 3, &no_numbers));
    assert!(!values_match("inf", "inf", 1, &double_within));
    assert!(values_match("inf", "inf", 0, &double_within));
}

#[test]
fn compute_diff_writes_what_the_reader_gives() {
    assert_eq!(compute_diff("0.3", "0.1", &double_difference), "0.19999999999999998");
    assert_eq!(compute_diff("1e2", "1", &double_difference), "99");
    assert_eq!(compute_diff("a", "b", &marked_difference), "a>b");
    assert_eq!(compute_diff("1", "x", &double_difference), "");
}

#[test]
fn compare_records_asks_the_given_judge() {
    let m = mapping("a", "A", true, 1);
    let mjs = table(&[&["k1", "128.3"], &["k2", "5"]]);
    let other = table(&[&["k1", "127.3"], &["k2", "5.0"]]);
    let idx = build_mjs_index(&mjs);
    let cols = [ColInfo { mapping: &m, mjs_idx: 1, other_idx: 1 }];
    // As doubles, 128.3 - 127.3 is a little more than 1.
    let stats = compare_records(&idx, &mjs, &other, 0, &cols, &double_within, &double_difference);
    assert_eq!(stats.mismatch_counts, vec![1]);
    assert_eq!(stats.detail_entries[0][0].diff, "1.0000000000000142");
    // Judged as texts, both pairs differ, with the judge's own difference text.
    let stats = compare_records(&idx, &mjs, &other, 0, &cols, &no_numbers, &marked_difference);
    assert_eq!(stats.mismatch_counts, vec![2]);
    assert_eq!(stats.detail_entries[0][1].diff, "5>5.0");
}

// ── CSV output ────────────────────────────────────────────────────────────

#[test]
fn csv_escape_with_carriage_return_wraps_in_quotes() {
    assert_eq!(csv_escape("a\rb"), "\"a\rb\"");
}

#[test]
fn csv_row_joins_escaped_fields() {
    assert_eq!(csv_row(&strings(&["a", "b,c", "d\"e"])), "a,\"b,c\",\"d\"\"e\"\n");
    assert_eq!(csv_row(&strings(&[])), "\n");
}

#[test]
fn find_col_index_finds_first_equal_header() {
    let headers = strings(&["a", "b", "a"]);
    assert_eq!(find_col_index(&headers, "a"), Some(0));
    assert_eq!(find_col_index(&headers, "b"), Some(1));
    assert_eq!(find_col_index(&headers, "c"), None);
}

// ── comparison ────────────────────────────────────────────────────────────

#[test]
fn compare_records_self_comparison_is_clean() {
    let m = mapping("出勤日数", "WORK_DAYS", true, 0);
    let records = table(&[&["1001", "20"], &["1002", "18"], &["1003", ""]]);
    let idx = build_mjs_index(&records);
    let stats = compare_records(&idx, &records, &records, 0, &[ColInfo { mapping: &m, mjs_idx: 1, other_idx: 1 }], &double_within, &double_difference);
    assert_eq!(stats.mismatch_counts, vec![0]);
    assert_eq!(stats.mjs_only_count, 0);
    assert_eq!(stats.other_only_count, 0);
    assert!(stats.detail_entries[0].is_empty());
}

#[test]
fn compare_records_detail_lines_count_mismatches_and_one_sided_records() {
    let m = mapping("出勤日数", "WORK_DAYS", true, 0);
    let mjs = table(&[&["1001", "20"], &["1002", "18"], &["1003", "5"]]);
    let other = table(&[&["x", "1002", "17"], &["y", "1004", "9"], &["z", "1001", "20"]]);
    let idx = build_mjs_index(&mjs);
    let stats = compare_records(&idx, &mjs, &other, 1, &[ColInfo { mapping: &m, mjs_idx: 1, other_idx: 2 }], &double_within, &double_difference);
    assert_eq!(stats.mismatch_counts[0], 1);
    assert_eq!(stats.other_only_count, 1);
    assert_eq!(stats.mjs_only_count, 1);
    let rows = &stats.detail_entries[0];
    assert_eq!(rows.len(), 3);
    let got: Vec<(&str, &str, &str, &str)> = rows
        .iter()
        .map(|r: &DetailRow| (r.key.as_str(), r.mjs_val.as_str(), r.other_val.as_str(), r.diff.as_str()))
        .collect();
    assert_eq!(got, vec![("1002", "18", "17", "1"), ("1004", "", "9", ""), ("1003", "5", "", "")]);
}

#[test]
fn compare_records_short_records_read_as_empty_fields() {
    let m = mapping("a", "A", true, 0);
    let mjs = table(&[&["1"], &[]]);
    let other = table(&[&["1", "x"], &[]]);
    let idx = build_mjs_index(&mjs);
    let stats = compare_records(&idx, &mjs, &other, 0, &[ColInfo { mapping: &m, mjs_idx: 1, other_idx: 1 }], &double_within, &double_difference);
    // "1" is found and disagrees ("" against "x"); the empty record's key ""
    // finds no MJS record, and the MJS record with no field is unmatched.
    assert_eq!(stats.mismatch_counts[0], 1);
    assert_eq!(stats.other_only_count, 1);
    assert_eq!(stats.mjs_only_count, 1);
}

#[test]
fn build_summary_and_detail_texts() {
    let m1 = mapping("出勤日数", "DAYS", true, 0);
    let m2 = mapping("残業時間", "OT", true, 1);
    let cols = [
        ColInfo { mapping: &m1, mjs_idx: 1, other_idx: 1 },
        ColInfo { mapping: &m2, mjs_idx: 2, other_idx: 2 },
    ];
    let mjs = table(&[&["1001", "20", "10.5"], &["1002", "18", "3"]]);
    let other = table(&[&["1001", "19", "10"], &["1002", "18", "3"]]);
    let idx = build_mjs_index(&mjs);
    let stats = compare_records(&idx, &mjs, &other, 0, &cols, &double_within, &double_difference);
    let (summary, rows) = build_summary_csv(&cols, &stats);
    assert_eq!(summary, "項目名,結果\n出勤日数,1\n残業時間,〇\nMJS側のみ存在,0\n他社側のみ存在,0\n");
    assert_eq!(rows.len(), 2);
    assert_eq!(rows[0].item_name, "出勤日数");
    assert_eq!(rows[0].result, "1");
    assert_eq!(rows[1].result, "〇");
    let detail = build_detail_csv("社員コード", &cols, &stats.detail_entries);
    assert_eq!(detail, "項目名：出勤日数\n社員コード,MJS値,他社値,差異\n1001,20,19,1\n");
}

#[test]
fn build_detail_csv_separates_sections_with_empty_line() {
    let m1 = mapping("a", "A", true, 0);
    let m2 = mapping("b", "B", true, 0);
    let cols = [
        ColInfo { mapping: &m1, mjs_idx: 1, other_idx: 1 },
        ColInfo { mapping: &m2, mjs_idx: 2, other_idx: 2 },
    ];
    let mjs = table(&[&["k", "1", "x,y"]]);
    let other = table(&[&["k", "2", "z"]]);
    let idx = build_mjs_index(&mjs);
    let stats = compare_records(&idx, &mjs, &other, 0, &cols, &double_within, &double_difference);
    let detail = build_detail_csv("key", &cols, &stats.detail_entries);
    assert_eq!(
        detail,
        "項目名：a\nkey,MJS値,他社値,差異\nk,1,2,-1\n\n項目名：b\nkey,MJS値,他社値,差異\nk,\"x,y\",z,\n"
    );
}

#[test]
fn run_reports_missing_key_column() {
    let c = config(vec![mapping("社員コード", "EMP", false, 0), mapping("a", "A", true, 0)]);
    let r = run(&c, &strings(&["社員コード", "a"]), &vec![], &strings(&["A"]), &vec![], &double_within, &double_difference);
    assert_eq!(r.unwrap_err(), "他社システムCSVにキー列「EMP」が見つかりません");
}

#[test]
fn run_reports_missing_mjs_column() {
    let c = config(vec![mapping("k", "K", false, 0), mapping("a", "A", true, 0)]);
    let r = run(&c, &strings(&["k"]), &vec![], &strings(&["K", "A"]), &vec![], &double_within, &double_difference);
    assert_eq!(r.unwrap_err(), "MJSシステムCSVに列「a」が見つかりません");
}

#[test]
fn run_reports_missing_other_column() {
    let c = config(vec![mapping("k", "K", false, 0), mapping("a", "A", true, 0)]);
    let r = run(&c, &strings(&["k", "a"]), &vec![], &strings(&["K"]), &vec![], &double_within, &double_difference);
    assert_eq!(r.unwrap_err(), "他社システムCSVに列「A」が見つかりません");
}

#[test]
fn run_skips_columns_that_are_not_compared() {
    let c = config(vec![mapping("k", "K", false, 0), mapping("gone", "GONE", false, 0), mapping("a", "A", true, 0)]);
    let mjs = table(&[&["1", "5"]]);
    let other = table(&[&["5", "1"]]);
    let report = run(&c, &strings(&["k", "a"]), &mjs, &strings(&["A", "K"]), &other, &double_within, &double_difference).unwrap();
    assert_eq!(report.summary.len(), 1);
    assert_eq!(report.summary[0].result, "〇");
    assert_eq!(report.detail_csv, "");
    assert_eq!(report.summary_file_name, "サマリー比較_202401311200.csv");
    assert_eq!(report.detail_file_name, "明細比較_202401311200.csv");
}

#[test]
fn run_builds_summary_and_detail() {
    let c = config(vec![mapping("社員コード", "EMP", false, 0), mapping("出勤日数", "DAYS", true, 0)]);
    let mjs = table(&[&["1001", "20"], &["1002", "18"], &["9999", "1"]]);
    let other = table(&[&["20", "1001"], &["15", "1002"], &["7", "8888"]]);
    let report =
        run(&c, &strings(&["社員コード", "出勤日数"]), &mjs, &strings(&["DAYS", "EMP"]), &other, &double_within, &double_difference).unwrap();
    assert_eq!(report.summary_csv, "項目名,結果\n出勤日数,1\nMJS側のみ存在,1\n他社側のみ存在,1\n");
    assert_eq!(
        report.detail_csv,
        "項目名：出勤日数\n社員コード,MJS値,他社値,差異\n1002,18,15,3\n8888,,7,\n9999,1,,\n"
    );
}

// ── reading CSV files ─────────────────────────────────────────────────────

#[test]
fn decode_shift_jis_text() {
    assert_eq!(decode_bytes(&[0x8E, 0xD0, 0x88, 0xF5], "sjis").unwrap(), "社員");
}

#[test]
fn decode_malformed_input_names_the_encoding() {
    assert_eq!(
        decode_bytes(&[0x80, 0x80], "utf-8"),
        Err("指定された文字コード(utf-8)でファイルを読み込めませんでした".to_string())
    );
}

#[test]
fn decode_unknown_encoding_names_it() {
    assert_eq!(decode_bytes(b"x", "latin1"), Err("未対応の文字コード: latin1".to_string()));
}

#[test]
fn decode_strips_every_leading_byte_order_mark() {
    let mut bytes = vec![0xEF, 0xBB, 0xBF];
    bytes.extend_from_slice("\u{FEFF}\u{FEFF}a\u{FEFF}".as_bytes());
    assert_eq!(decode_bytes(&bytes, "utf-8").unwrap(), "a\u{FEFF}");
    assert_eq!(strip_leading_bom("\u{FEFF}"), "");
}

#[test]
fn read_headers_of_empty_file_is_refused() {
    assert_eq!(read_headers(Ok(vec![]), "utf-8"), Err("ヘッダー行が空です".to_string()));
}

#[test]
fn read_records_reports_read_error() {
    let r = read_records(Err("denied".to_string()), "utf-8");
    assert_eq!(r, Err("ファイル読み込みエラー: denied".to_string()));
}

#[test]
fn read_records_reports_uneven_records() {
    let r = read_records(Ok(b"a,b\n1\n".to_vec()), "utf-8");
    assert!(r.unwrap_err().starts_with("CSVデータ解析エラー: "));
}

#[test]
fn read_records_reads_quoted_fields() {
    let (headers, records) = read_records(Ok(b"a,b\n\"x,y\",\"q\"\"\"\n".to_vec()), "utf-8").unwrap();
    assert_eq!(headers, vec!["a", "b"]);
    assert_eq!(records, vec![vec!["x,y".to_string(), "q\"".to_string()]]);
}

#[test]
fn csv_row_reads_back_through_the_csv_reader() {
    let fields = strings(&["plain", "a,b", "say \"hi\"", "two\nlines", ""]);
    let mut text = "h1,h2,h3,h4,h5\n".to_string();
    text.push_str(&csv_row(&fields));
    let (_, records) = read_records(Ok(text.into_bytes()), "utf-8").unwrap();
    assert_eq!(records, vec![fields]);
}
