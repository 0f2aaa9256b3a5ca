use vstd::prelude::*;

verus! {

/// One column of the comparison: the header in the MJS file, the header in
/// the other system's file, whether the column is compared, and the
/// tolerance of the comparison (0 compares the texts).
#[derive(Debug)]
pub struct ColumnMapping {
    pub mjs_header: String,
    pub other_header: String,
    pub is_compare: bool,
    pub tolerance: i32,
}

/// Everything a comparison run is given. The first column is the key column.
#[derive(Debug)]
pub struct ComparisonConfig {
    pub mjs_path: String,
    pub mjs_encoding: String,
    pub other_path: String,
    pub other_encoding: String,
    pub output_dir: String,
    pub columns: Vec<ColumnMapping>,
    pub timestamp: String,
}

/// One line of the summary: a compared column and its result.
#[derive(Debug)]
pub struct SummaryRow {
    pub item_name: String,
    pub result: String,
}

/// What a comparison run reports: the summary and the files written.
#[derive(Debug)]
pub struct ComparisonResult {
    pub summary: Vec<SummaryRow>,
    pub summary_file: String,
    pub detail_file: String,
}

/// A saved set of column settings.
#[derive(Debug)]
pub struct ConfigData {
    pub columns: Vec<ColumnMapping>,
}

/// A progress report: a message and the step reached out of the total.
#[derive(Debug)]
pub struct ProgressPayload {
    pub message: String,
    pub step: u32,
    pub total: u32,
}

} // verus!
