use migrassist::csv_reader::{collect_csv_headers, decode_bytes, read_headers, read_records};

// ── decode_bytes ──────────────────────────────────────────────────────────

#[test]
fn decode_utf8_plain_text() {
    let result = decode_bytes("社員コード,氏名".as_bytes(), "utf-8").unwrap();
    assert_eq!(result, "社員コード,氏名");
}

#[test]
fn decode_utf8_strips_bom() {
    let mut bytes = vec![0xEF, 0xBB, 0xBF];
    bytes.extend_from_slice("社員コード".as_bytes());
    let result = decode_bytes(&bytes, "utf-8-bom").unwrap();
    assert_eq!(result, "社員コード");
}

#[test]
fn decode_unknown_encoding_returns_error() {
    let result = decode_bytes(b"test", "euc-jp");
    assert!(result.is_err());
    assert!(result.unwrap_err().contains("未対応の文字コード"));
}

#[test]
fn decode_invalid_utf8_sequence_returns_error() {
    let result = decode_bytes(&[0x80, 0x80], "utf-8");
    assert!(result.is_err());
}

// ── collect_csv_headers ───────────────────────────────────────────────────

#[test]
fn collect_csv_headers_returns_header_row() {
    let text = "社員コード,氏名,出勤日数\n1001,山田,20\n";
    let headers = collect_csv_headers(text).unwrap();
    assert_eq!(headers, vec!["社員コード", "氏名", "出勤日数"]);
}

#[test]
fn collect_csv_headers_empty_text_returns_error() {
    let result = collect_csv_headers("");
    assert!(result.is_err());
}

// ── read_headers / read_records, given what reading the file gave ─────────

#[test]
fn read_headers_utf8_file() {
    let contents = "社員コード,出勤日数\n1001,20\n".as_bytes().to_vec();
    let headers = read_headers(Ok(contents), "utf-8").unwrap();
    assert_eq!(headers, vec!["社員コード", "出勤日数"]);
}

#[test]
fn read_headers_nonexistent_file_returns_error() {
    let read = Err("No such file or directory (os error 2)".to_string());
    let result = read_headers(read, "utf-8");
    assert!(result.is_err());
    assert!(result.unwrap_err().contains("ファイル読み込みエラー"));
}

#[test]
fn read_records_returns_headers_and_rows() {
    let contents = "社員コード,出勤日数\n1001,20\n1002,18\n".as_bytes().to_vec();
    let (headers, records) = read_records(Ok(contents), "utf-8").unwrap();
    assert_eq!(headers, vec!["社員コード", "出勤日数"]);
    assert_eq!(records.len(), 2);
    assert_eq!(records[0], vec!["1001", "20"]);
    assert_eq!(records[1], vec!["1002", "18"]);
}

#[test]
fn read_records_utf8_bom_file_strips_bom() {
    let mut content = vec![0xEF, 0xBB, 0xBF];
    content.extend_from_slice("社員コード,氏名\n1001,山田\n".as_bytes());
    let (headers, records) = read_records(Ok(content), "utf-8-bom").unwrap();
    assert_eq!(headers[0], "社員コード");
    assert_eq!(records[0][0], "1001");
}

#[test]
fn read_records_header_only_returns_empty_records() {
    let contents = "社員コード,出勤日数\n".as_bytes().to_vec();
    let (headers, records) = read_records(Ok(contents), "utf-8").unwrap();
    assert_eq!(headers.len(), 2);
    assert!(records.is_empty());
}
