use vstd::prelude::*;

use crate::csv_output::texts;
use crate::comparison::{table, Record};
use crate::text::{chars_of, push_chars, push_str};

verus! {

/// The text encodings that CSV files may be read in.
#[derive(Debug, Clone, Copy, PartialEq, Eq, Structural)]
pub enum TextEncoding {
    ShiftJis,
    Utf8,
}

/// The text and the malformed-input flag that `encoding_rs` gives when it
/// decodes the bytes in the encoding (with its BOM sniffing).
pub uninterp spec fn decoded(encoding: TextEncoding, bytes: Seq<u8>) -> (Seq<char>, bool);

/// `encoding_rs::Encoding::decode` on `SHIFT_JIS` or `UTF_8`: the decoded
/// text and whether malformed sequences were met. The contract only names
/// the result; what the decoding is is left to `encoding_rs`.
#[verifier::external_body]
fn decode_with(encoding: TextEncoding, bytes: &[u8]) -> (r: (String, bool))
    ensures
        (r.0@, r.1) == decoded(encoding, bytes@),
{
    let (text, _, had_errors) = match encoding {
        TextEncoding::ShiftJis => encoding_rs::SHIFT_JIS.decode(bytes),
        TextEncoding::Utf8 => encoding_rs::UTF_8.decode(bytes),
    };
    (text.into_owned(), had_errors)
}

/// The header row that the `csv` crate reads from a text (a reader built
/// with headers on), or the text of its error.
pub uninterp spec fn csv_header_row(text: Seq<char>) -> Result<Seq<Seq<char>>, Seq<char>>;

/// The records after the header row that the `csv` crate reads from a text
/// (a reader built with headers on), or the text of the first error met.
pub uninterp spec fn csv_data_rows(text: Seq<char>) -> Result<Seq<Record>, Seq<char>>;

/// A list of fields, or an error text, as texts.
pub open spec fn fields_result(r: Result<Vec<String>, String>) -> Result<Seq<Seq<char>>, Seq<char>> {
    match r {
        Ok(h) => Ok(texts(h@)),
        Err(e) => Err(e@),
    }
}

/// A list of records, or an error text, as texts.
pub open spec fn rows_result(r: Result<Vec<Vec<String>>, String>) -> Result<Seq<Record>, Seq<char>> {
    match r {
        Ok(rows) => Ok(table(rows@)),
        Err(e) => Err(e@),
    }
}

/// Records that were read all have as many fields as a header row that was
/// read.
pub open spec fn rows_fit_header(
    rows: Result<Seq<Record>, Seq<char>>,
    header: Result<Seq<Seq<char>>, Seq<char>>,
) -> bool {
    rows is Ok ==> header is Ok && forall|i: int|
        0 <= i < rows->Ok_0.len() ==> (#[trigger] rows->Ok_0[i]).len() == header->Ok_0.len()
}

/// `csv::Reader::headers` on a reader over the text, built by
/// `ReaderBuilder::new().has_headers(true)`. The result is named, and no
/// more is said of it.
#[verifier::external_body]
fn parse_csv_headers(text: &str) -> (r: Result<Vec<String>, String>)
    ensures
        csv_header_row(text@) == fields_result(r),
{
    let mut reader = csv::ReaderBuilder::new().has_headers(true).from_reader(text.as_bytes());
    match reader.headers() {
        Ok(h) => Ok(h.iter().map(|f| f.to_string()).collect()),
        Err(e) => Err(e.to_string()),
    }
}

/// `csv::Reader::records` on a reader over the text, built by
/// `ReaderBuilder::new().has_headers(true)`: the records after the header
/// row until the first error. The result is named; of it the crate's source
/// shows that the reader is not flexible, so records are only given when
/// the header row was read and each record has as many fields as it.
#[verifier::external_body]
fn parse_csv_records(text: &str) -> (r: Result<Vec<Vec<String>>, String>)
    ensures
        csv_data_rows(text@) == rows_result(r),
        rows_fit_header(rows_result(r), csv_header_row(text@)),
{
    let mut reader = csv::ReaderBuilder::new().has_headers(true).from_reader(text.as_bytes());
    let mut rows = Vec::new();
    for record in reader.records() {
        match record {
            Ok(rec) => rows.push(rec.iter().map(|f| f.to_string()).collect()),
            Err(e) => return Err(e.to_string()),
        }
    }
    Ok(rows)
}

/// The encoding that a label names.
pub open spec fn encoding_for(label: Seq<char>) -> Option<TextEncoding> {
    if label == "sjis"@ {
        Some(TextEncoding::ShiftJis)
    } else if label == "utf-8"@ || label == "utf-8-bom"@ {
        Some(TextEncoding::Utf8)
    } else {
        None
    }
}

/// The text without the byte order marks that begin it.
pub open spec fn without_leading_bom(s: Seq<char>) -> Seq<char>
    decreases s.len(),
{
    if s.len() > 0 && s[0] == '\u{feff}' {
        without_leading_bom(s.skip(1))
    } else {
        s
    }
}

pub open spec fn unsupported_encoding(label: Seq<char>) -> Seq<char> {
    "未対応の文字コード: "@ + label
}

pub open spec fn undecodable(label: Seq<char>) -> Seq<char> {
    "指定された文字コード("@ + label + ")でファイルを読み込めませんでした"@
}

/// What decoding gives once the bytes were decoded: an error naming the
/// label when the input was malformed, else the text without leading BOMs.
pub open spec fn decoding_outcome(label: Seq<char>, text: Seq<char>, had_errors: bool) -> Result<
    Seq<char>,
    Seq<char>,
> {
    if had_errors {
        Err(undecodable(label))
    } else {
        Ok(without_leading_bom(text))
    }
}

/// What decoding the bytes of a file under an encoding label gives.
pub open spec fn decode_outcome(bytes: Seq<u8>, label: Seq<char>) -> Result<Seq<char>, Seq<char>> {
    match encoding_for(label) {
        None => Err(unsupported_encoding(label)),
        Some(e) => decoding_outcome(label, decoded(e, bytes).0, decoded(e, bytes).1),
    }
}

pub open spec fn string_result(r: Result<String, String>) -> Result<Seq<char>, Seq<char>> {
    match r {
        Ok(s) => Ok(s@),
        Err(e) => Err(e@),
    }
}

/// Removes the byte order marks that begin a text.
pub fn strip_leading_bom(text: &str) -> (r: String)
    ensures
        r@ == without_leading_bom(text@),
{
    let cs = chars_of(text);
    let n = cs.len();
    let mut i: usize = 0;
    assert(cs@.skip(0) =~= cs@);
    while i < n && cs[i] == '\u{feff}'
        invariant
            n == cs@.len(),
            i <= n,
            without_leading_bom(cs@.skip(i as int)) == without_leading_bom(text@),
        decreases n - i,
    {
        assert(cs@.skip(i as int).skip(1) =~= cs@.skip(i + 1));
        i += 1;
    }
    let mut rest: Vec<char> = Vec::new();
    for j in i..n
        invariant
            n == cs@.len(),
            i <= n,
            rest@ == cs@.subrange(i as int, j as int),
    {
        rest.push(cs[j]);
        assert(rest@ =~= cs@.subrange(i as int, j + 1));
    }
    let mut r = String::new();
    push_chars(&mut r, &rest);
    assert(cs@.skip(i as int) =~= rest@);
    r
}

/// Finishes decoding from what the decoder gave (see `decoding_outcome`).
pub fn finish_decoding(decoded_text: String, had_errors: bool, encoding: &str) -> (r: Result<
    String,
    String,
>)
    ensures
        string_result(r) == decoding_outcome(encoding@, decoded_text@, had_errors),
{
    if had_errors {
        let mut msg = "指定された文字コード(".to_owned();
        push_str(&mut msg, encoding);
        push_str(&mut msg, ")でファイルを読み込めませんでした");
        Err(msg)
    } else {
        Ok(strip_leading_bom(decoded_text.as_str()))
    }
}

/// Decodes the bytes of a file as the encoding label says: `sjis` for
/// Shift_JIS, `utf-8` or `utf-8-bom` for UTF-8; other labels are refused.
pub fn decode_bytes(bytes: &[u8], encoding: &str) -> (r: Result<String, String>)
    ensures
        string_result(r) == decode_outcome(bytes@, encoding@),
{
    let label = encoding.to_owned();
    let enc = if label == "sjis".to_owned() {
        TextEncoding::ShiftJis
    } else if label == "utf-8".to_owned() || label == "utf-8-bom".to_owned() {
        TextEncoding::Utf8
    } else {
        let mut msg = "未対応の文字コード: ".to_owned();
        push_str(&mut msg, encoding);
        return Err(msg);
    };
    let (text, had_errors) = decode_with(enc, bytes);
    finish_decoding(text, had_errors, encoding)
}


pub open spec fn header_error(detail: Seq<char>) -> Seq<char> {
    "CSVヘッダー解析エラー: "@ + detail
}

pub open spec fn empty_header_row() -> Seq<char> {
    "ヘッダー行が空です"@
}

pub open spec fn data_error(detail: Seq<char>) -> Seq<char> {
    "CSVデータ解析エラー: "@ + detail
}

pub open spec fn read_error(detail: Seq<char>) -> Seq<char> {
    "ファイル読み込みエラー: "@ + detail
}

/// The header row once the parser read it: its error, prefixed, when it
/// failed; an error when the row holds no field; else the row.
pub open spec fn header_outcome(parsed: Result<Seq<Seq<char>>, Seq<char>>) -> Result<
    Seq<Seq<char>>,
    Seq<char>,
> {
    match parsed {
        Err(e) => Err(header_error(e)),
        Ok(h) => if h.len() == 0 {
            Err(empty_header_row())
        } else {
            Ok(h)
        },
    }
}

/// Checks the header row that the parser read (see `header_outcome`).
pub fn check_header_row(parsed: Result<Vec<String>, String>) -> (r: Result<Vec<String>, String>)
    ensures
        fields_result(r) == header_outcome(fields_result(parsed)),
{
    match parsed {
        Err(e) => {
            let mut msg = "CSVヘッダー解析エラー: ".to_owned();
            push_str(&mut msg, e.as_str());
            Err(msg)
        },
        Ok(h) => if h.len() == 0 {
            Err("ヘッダー行が空です".to_owned())
        } else {
            Ok(h)
        },
    }
}

/// Reads the header row of a CSV text; it must hold at least one field.
pub fn collect_csv_headers(text: &str) -> (r: Result<Vec<String>, String>)
    ensures
        fields_result(r) == header_outcome(csv_header_row(text@)),
{
    check_header_row(parse_csv_headers(text))
}

/// The records once the parser read them: its error, prefixed, when it
/// failed; else the records.
pub open spec fn data_outcome(parsed: Result<Seq<Record>, Seq<char>>) -> Result<Seq<Record>, Seq<char>> {
    match parsed {
        Err(e) => Err(data_error(e)),
        Ok(rows) => Ok(rows),
    }
}

/// Checks the records that the parser read (see `data_outcome`).
pub fn check_data_rows(parsed: Result<Vec<Vec<String>>, String>) -> (r: Result<Vec<Vec<String>>, String>)
    ensures
        rows_result(r) == data_outcome(rows_result(parsed)),
{
    match parsed {
        Err(e) => {
            let mut msg = "CSVデータ解析エラー: ".to_owned();
            push_str(&mut msg, e.as_str());
            Err(msg)
        },
        Ok(rows) => Ok(rows),
    }
}

pub open spec fn bytes_result(r: Result<Vec<u8>, String>) -> Result<Seq<u8>, Seq<char>> {
    match r {
        Ok(b) => Ok(b@),
        Err(e) => Err(e@),
    }
}

/// What reading the header row of a file gives, from the outcome of
/// reading the file: the read error, prefixed; or the decoding error; or
/// the header row of the decoded text (see `header_outcome`).
pub open spec fn headers_of_file(file: Result<Seq<u8>, Seq<char>>, label: Seq<char>) -> Result<
    Seq<Seq<char>>,
    Seq<char>,
> {
    match file {
        Err(e) => Err(read_error(e)),
        Ok(bytes) => match decode_outcome(bytes, label) {
            Err(e) => Err(e),
            Ok(text) => header_outcome(csv_header_row(text)),
        },
    }
}

/// What reading a whole file gives: as `headers_of_file`, then the records
/// of the decoded text (see `data_outcome`).
pub open spec fn records_of_file(file: Result<Seq<u8>, Seq<char>>, label: Seq<char>) -> Result<
    (Seq<Seq<char>>, Seq<Record>),
    Seq<char>,
> {
    match headers_of_file(file, label) {
        Err(e) => Err(e),
        Ok(h) => match data_outcome(csv_data_rows(decode_outcome(file->Ok_0, label)->Ok_0)) {
            Err(e) => Err(e),
            Ok(rows) => Ok((h, rows)),
        },
    }
}

fn read_failure(e: &String) -> (r: String)
    ensures
        r@ == read_error(e@),
{
    let mut msg = "ファイル読み込みエラー: ".to_owned();
    push_str(&mut msg, e.as_str());
    msg
}

/// Reads the header row of a CSV file, given what reading the file gave:
/// its bytes, or the text of the read error.
pub fn read_headers(file: Result<Vec<u8>, String>, encoding: &str) -> (r: Result<Vec<String>, String>)
    ensures
        fields_result(r) == headers_of_file(bytes_result(file), encoding@),
{
    match file {
        Err(e) => Err(read_failure(&e)),
        Ok(bytes) => match decode_bytes(bytes.as_slice(), encoding) {
            Err(e) => Err(e),
            Ok(text) => collect_csv_headers(text.as_str()),
        },
    }
}

pub open spec fn table_result(r: Result<(Vec<String>, Vec<Vec<String>>), String>) -> Result<
    (Seq<Seq<char>>, Seq<Record>),
    Seq<char>,
> {
    match r {
        Ok((h, rows)) => Ok((texts(h@), table(rows@))),
        Err(e) => Err(e@),
    }
}

/// Reads the header row and the records of a CSV file, given what reading
/// the file gave: its bytes, or the text of the read error.
pub fn read_records(file: Result<Vec<u8>, String>, encoding: &str) -> (r: Result<
    (Vec<String>, Vec<Vec<String>>),
    String,
>)
    ensures
        table_result(r) == records_of_file(bytes_result(file), encoding@),
        r matches Ok((h, _)) ==> h@.len() >= 1,
        r matches Ok((h, rows)) ==> forall|i: int|
            0 <= i < rows@.len() ==> (#[trigger] rows@[i])@.len() == h@.len(),
{
    match file {
        Err(e) => Err(read_failure(&e)),
        Ok(bytes) => match decode_bytes(bytes.as_slice(), encoding) {
            Err(e) => Err(e),
            Ok(text) => match collect_csv_headers(text.as_str()) {
                Err(e) => Err(e),
                Ok(headers) => {
                    let parsed = parse_csv_records(text.as_str());
                    match check_data_rows(parsed) {
                        Err(e) => Err(e),
                        Ok(rows) => {
                            proof {
                                assert forall|i: int| 0 <= i < rows@.len() implies (#[trigger] rows@[i])@.len()
                                    == headers@.len() by {
                                    assert(table(rows@)[i] == texts(rows@[i]@));
                                    assert(texts(headers@).len() == headers@.len());
                                }
                            }
                            Ok((headers, rows))
                        },
                    }
                },
            },
        },
    }
}


/// A decoded text never begins with a byte order mark, and what follows
/// the marks is kept as it was.
pub proof fn law_decoded_text_has_no_leading_bom(s: Seq<char>)
    ensures
        without_leading_bom(s).len() == 0 || without_leading_bom(s)[0] != '\u{feff}',
        exists|k: int| 0 <= k <= s.len() && #[trigger] s.skip(k) == without_leading_bom(s),
    decreases s.len(),
{
    if s.len() > 0 && s[0] == '\u{feff}' {
        law_decoded_text_has_no_leading_bom(s.skip(1));
        let k = choose|k: int| 0 <= k <= s.skip(1).len() && #[trigger] s.skip(1).skip(k) == without_leading_bom(s.skip(1));
        assert(s.skip(1).skip(k) =~= s.skip(k + 1));
    } else {
        assert(s.skip(0) =~= s);
    }
}


/// A file whose records are read gives the same header row as reading its
/// header row alone, and that row has at least one field.
pub proof fn law_records_agree_with_headers(file: Result<Seq<u8>, Seq<char>>, label: Seq<char>)
    requires
        records_of_file(file, label) is Ok,
    ensures
        headers_of_file(file, label) == Ok::<Seq<Seq<char>>, Seq<char>>(records_of_file(file, label)->Ok_0.0),
        records_of_file(file, label)->Ok_0.0.len() >= 1,
{
}

/// Under every supported label, decoding fails exactly when the decoder
/// meets malformed input, and the failure names the label; Shift_JIS is no
/// exception.
pub proof fn law_malformed_input_is_refused(bytes: Seq<u8>, label: Seq<char>)
    ensures
        encoding_for(label) matches Some(e) ==> (decode_outcome(bytes, label) is Err <==> decoded(e, bytes).1),
        encoding_for(label) matches Some(e) && decoded(e, bytes).1 ==> decode_outcome(bytes, label) == Err::<
            Seq<char>,
            Seq<char>,
        >("指定された文字コード("@ + label + ")でファイルを読み込めませんでした"@),
        decode_outcome(bytes, "sjis"@) is Err <==> decoded(TextEncoding::ShiftJis, bytes).1,
{
    reveal_strlit("sjis");
    reveal_strlit("utf-8");
    reveal_strlit("utf-8-bom");
}

} // verus!
