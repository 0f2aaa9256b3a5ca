use vstd::prelude::*;

use crate::text::{is_blank, is_blank_str, push_str};
use crate::types::{ColumnMapping, ComparisonConfig};

verus! {

pub open spec fn missing_path() -> Seq<char> {
    "ファイルパスが未入力です"@
}

/// Refuses a blank file path before a CSV file is opened for its headers.
pub fn check_csv_path(path: &str) -> (r: Result<(), String>)
    ensures
        r is Err <==> is_blank(path@),
        r matches Err(e) ==> e@ == missing_path(),
{
    if is_blank_str(path) {
        Err("ファイルパスが未入力です".to_owned())
    } else {
        Ok(())
    }
}

/// Whether some column after the key column is compared.
pub open spec fn has_compared_column(columns: Seq<ColumnMapping>) -> bool {
    exists|k: int| 1 <= k < columns.len() && (#[trigger] columns[k]).is_compare
}

/// Whether a column after the key column is compared but has no
/// other-system column chosen.
pub open spec fn lacks_other_column(columns: Seq<ColumnMapping>, k: int) -> bool {
    1 <= k < columns.len() && columns[k].is_compare && is_blank(columns[k].other_header@)
}

/// The first compared column with no other-system column chosen.
pub open spec fn first_lacking(columns: Seq<ColumnMapping>) -> Option<int> {
    if exists|k: int| lacks_other_column(columns, k) {
        Some(
            choose|k: int|
                lacks_other_column(columns, k) && forall|j: int|
                    #![trigger lacks_other_column(columns, j)]
                    0 <= j < k ==> !lacks_other_column(columns, j),
        )
    } else {
        None
    }
}

pub open spec fn no_mjs_file() -> Seq<char> {
    "MJSシステムのCSVファイルが指定されていません"@
}

pub open spec fn no_other_file() -> Seq<char> {
    "他社システムのCSVファイルが指定されていません"@
}

pub open spec fn no_output_dir() -> Seq<char> {
    "出力フォルダが指定されていません"@
}

pub open spec fn no_columns() -> Seq<char> {
    "ファイルが取り込まれていません"@
}

pub open spec fn no_key_column() -> Seq<char> {
    "キー列の他社システム側の列が選択されていません"@
}

pub open spec fn no_compared_column() -> Seq<char> {
    "比較対象の列が1件も選択されていません"@
}

pub open spec fn no_other_column(header: Seq<char>) -> Seq<char> {
    "比較対象列「"@ + header + "」の他社システム側の列が選択されていません"@
}

/// Why a configuration cannot be run, checked in this order: a blank MJS
/// file path, other file path or output folder; no column; a blank
/// other-system key column; no compared column; a compared column without
/// an other-system column (the first one is named).
pub open spec fn config_error(config: ComparisonConfig) -> Option<Seq<char>> {
    let columns = config.columns@;
    if is_blank(config.mjs_path@) {
        Some(no_mjs_file())
    } else if is_blank(config.other_path@) {
        Some(no_other_file())
    } else if is_blank(config.output_dir@) {
        Some(no_output_dir())
    } else if columns.len() == 0 {
        Some(no_columns())
    } else if is_blank(columns[0].other_header@) {
        Some(no_key_column())
    } else if !has_compared_column(columns) {
        Some(no_compared_column())
    } else {
        match first_lacking(columns) {
            Some(k) => Some(no_other_column(columns[k].mjs_header@)),
            None => None,
        }
    }
}

/// Checks a configuration before a comparison runs (see `config_error`).
pub fn validate_config(config: &ComparisonConfig) -> (r: Result<(), String>)
    ensures
        r is Ok <==> config_error(*config) is None,
        r matches Err(e) ==> config_error(*config) == Some(e@),
{
    if is_blank_str(config.mjs_path.as_str()) {
        return Err("MJSシステムのCSVファイルが指定されていません".to_owned());
    }
    if is_blank_str(config.other_path.as_str()) {
        return Err("他社システムのCSVファイルが指定されていません".to_owned());
    }
    if is_blank_str(config.output_dir.as_str()) {
        return Err("出力フォルダが指定されていません".to_owned());
    }
    let n = config.columns.len();
    if n == 0 {
        return Err("ファイルが取り込まれていません".to_owned());
    }
    if is_blank_str(config.columns[0].other_header.as_str()) {
        return Err("キー列の他社システム側の列が選択されていません".to_owned());
    }
    let ghost columns = config.columns@;
    let mut any_compared = false;
    for k in 1..n
        invariant
            n == columns.len(),
            columns == config.columns@,
            any_compared == exists|j: int| 1 <= j < k && (#[trigger] columns[j]).is_compare,
    {
        if config.columns[k].is_compare {
            any_compared = true;
        }
    }
    assert(any_compared == has_compared_column(columns));
    if !any_compared {
        return Err("比較対象の列が1件も選択されていません".to_owned());
    }
    for k in 1..n
        invariant
            n == columns.len(),
            columns == config.columns@,
            forall|j: int| 0 <= j < k ==> !lacks_other_column(columns, j),
            !is_blank(config.mjs_path@),
            !is_blank(config.other_path@),
            !is_blank(config.output_dir@),
            !is_blank(columns[0].other_header@),
            has_compared_column(columns),
    {
        let c = &config.columns[k];
        if c.is_compare && is_blank_str(c.other_header.as_str()) {
            let mut msg = "比較対象列「".to_owned();
            push_str(&mut msg, c.mjs_header.as_str());
            push_str(&mut msg, "」の他社システム側の列が選択されていません");
            proof {
                assert(lacks_other_column(columns, k as int));
                let f = first_lacking(columns)->0;
                if f < k {
                    assert(!lacks_other_column(columns, f));
                } else if f > k {
                    assert(!lacks_other_column(columns, k as int));
                }
            }
            return Err(msg);
        }
    }
    proof {
        assert forall|j: int| !lacks_other_column(columns, j) by {
            if 0 <= j < n {
            }
        }
    }
    Ok(())
}

/// A configuration that passes the checks has a key column and a compared
/// column, so a comparison can be run on it.
pub proof fn lemma_valid_config_can_run(config: ComparisonConfig)
    requires
        config_error(config) is None,
    ensures
        config.columns@.len() >= 2,
        has_compared_column(config.columns@),
        !is_blank(config.columns@[0].other_header@),
        forall|k: int|
            1 <= k < config.columns@.len() && (#[trigger] config.columns@[k]).is_compare ==> !is_blank(
                config.columns@[k].other_header@,
            ),
{
    let columns = config.columns@;
    assert forall|k: int|
        1 <= k < columns.len() && (#[trigger] columns[k]).is_compare implies !is_blank(
            columns[k].other_header@,
        ) by {
        assert(!lacks_other_column(columns, k));
    }
}

} // verus!
